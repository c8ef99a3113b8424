//! The raw sample buffer: an append-only series of timestamped samples.

use vstd::prelude::*;

use crate::base::TimeStamp;
use crate::element::{first_ts_geq_from, lemma_first_ts_geq_char, lemma_first_ts_geq_from, ts_sorted, Element};
use crate::sample::Sample;

verus! {

/// `RawSeries` represents a series of raw timestamped data samples. Callers
/// must append samples in non-decreasing timestamp order; the ordering is a
/// statically checked precondition of `push` and `push_sample`, never a
/// run-time check.
#[derive(Debug, Clone)]
pub struct RawSeries {
    pub values: Vec<Element>,
}

impl View for RawSeries {
    type V = Seq<Element>;

    open spec fn view(&self) -> Seq<Element> {
        self.values@
    }
}

impl RawSeries {
    /// The series' timestamps are in non-decreasing order.
    pub open spec fn wf(&self) -> bool {
        ts_sorted(self@)
    }

    /// Create a new empty series.
    pub fn new() -> (r: RawSeries)
        ensures
            r@ == Seq::<Element>::empty(),
            r.wf(),
    {
        RawSeries { values: Vec::new() }
    }

    /// Returns the last value in the series, or 0 if the series is empty.
    pub fn last_val(&self) -> (r: i64)
        ensures
            r == if self@.len() == 0 {
                0
            } else {
                self@.last().1.spec_val()
            },
    {
        let n = self.values.len();
        if n == 0 {
            0
        } else {
            self.values[n - 1].1.val()
        }
    }

    /// Add a new sample to the series. The timestamp must not be less than
    /// the last sample's timestamp.
    pub fn push(&mut self, ts: TimeStamp, value: i64)
        requires
            old(self).wf(),
            old(self)@.len() > 0 ==> ts.0 >= old(self)@.last().0.0,
        ensures
            final(self)@ == old(self)@.push(Element(ts, Sample::Point(value))),
            final(self).wf(),
    {
        self.push_sample(ts, Sample::point(value))
    }

    /// Add a new sample to the series. The timestamp must not be less than
    /// the last sample's timestamp.
    pub fn push_sample(&mut self, ts: TimeStamp, sample: Sample)
        requires
            old(self).wf(),
            old(self)@.len() > 0 ==> ts.0 >= old(self)@.last().0.0,
        ensures
            final(self)@ == old(self)@.push(Element(ts, sample)),
            final(self).wf(),
    {
        self.values.push(Element(ts, sample));
        proof {
            let s = self@;
            assert forall|i: int, j: int| 0 <= i < j < s.len() implies s[i].0.0 <= s[j].0.0 by {
                if j == s.len() - 1 {
                    assert(old(self)@[i].0.0 <= old(self)@.last().0.0);
                }
            }
        }
    }

    /// Returns the number of samples in the series.
    pub fn len(&self) -> (r: usize)
        ensures
            r == self@.len(),
    {
        self.values.len()
    }

    /// Returns true if the series is empty.
    pub fn is_empty(&self) -> (r: bool)
        ensures
            r == (self@.len() == 0),
    {
        self.values.len() == 0
    }

    /// Get the sample at the given index.
    pub fn get(&self, index: usize) -> (r: Option<&Element>)
        ensures
            match r {
                Some(e) => index < self@.len() && *e == self@[index as int],
                None => index >= self@.len(),
            },
    {
        if index < self.values.len() {
            Some(&self.values[index])
        } else {
            None
        }
    }

    /// Return an iterator over the epoch-aligned windows of the series.
    pub fn windows(&self, window_size: crate::base::Duration, start_ts: TimeStamp) -> (r:
        crate::window::WindowIter)
        requires
            self.wf(),
            window_size.0 > 0,
            crate::window::spec_num_windows(self@, start_ts.0 as int, window_size.0 as int)
                <= usize::MAX,
        ensures
            r.wf(),
            r.series@ == self@,
            r.window_size == window_size,
            r.start_ts == start_ts,
            r.num_windows == crate::window::spec_num_windows(
                self@,
                start_ts.0 as int,
                window_size.0 as int,
            ),
            r.current_window == 0,
            r.last_index == 0,
    {
        crate::window::WindowIter::new(self, window_size, start_ts)
    }

    /// Returns the nearest sample at or after the given timestamp: the
    /// element at the minimal index whose timestamp is `>= ts`, or `None`
    /// if every timestamp is below `ts`.
    pub fn at_or_after(&self, ts: TimeStamp) -> (r: Option<&Element>)
        requires
            self.wf(),
        ensures
            ({
                let k = first_ts_geq_from(self@, 0, ts.0 as int);
                match r {
                    Some(e) => k < self@.len() && *e == self@[k],
                    None => k == self@.len(),
                }
            }),
    {
        // Binary search for the first sample with a timestamp greater than or
        // equal to the given timestamp.
        let mut left: usize = 0;
        let mut right: usize = self.values.len();

        while left < right
            invariant
                left <= right <= self@.len(),
                self.wf(),
                forall|i: int| 0 <= i < left ==> self@[i].0.0 < ts.0,
                forall|i: int| right <= i < self@.len() ==> self@[i].0.0 >= ts.0,
            decreases right - left,
        {
            let mid = left + (right - left) / 2;
            if self.values[mid].0.0 < ts.0 {
                left = mid + 1;
            } else {
                right = mid;
            }
        }

        proof {
            lemma_first_ts_geq_char(self@, ts.0 as int, left as int);
        }

        if left < self.values.len() {
            Some(&self.values[left])
        } else {
            None
        }
    }
}

/// Monotonic lookup law: on a series with sorted timestamps, the index that
/// `at_or_after` answers from is the minimal index whose timestamp is at
/// least `t`, and it is out of range exactly when the series is empty or its
/// last timestamp is below `t`.
pub proof fn lemma_at_or_after_minimal(s: Seq<Element>, t: int)
    requires
        ts_sorted(s),
    ensures
        ({
            let k = first_ts_geq_from(s, 0, t);
            &&& 0 <= k <= s.len()
            &&& k < s.len() ==> s[k].0.0 >= t
            &&& forall|j: int| 0 <= j < k ==> s[j].0.0 < t
            &&& (k == s.len() <==> (s.len() == 0 || s.last().0.0 < t))
        }),
{
    lemma_first_ts_geq_from(s, 0, t);
    let k = first_ts_geq_from(s, 0, t);
    if s.len() > 0 && s.last().0.0 >= t {
        assert(k < s.len());
    }
}

} // verus!
