//! A self-contained pair of series types that take plain millisecond
//! timestamps at the call sites: the raw buffer and its fixed-interval
//! counterpart. They window and aggregate through the same machinery as
//! [`crate::raw_series`] and [`crate::aligned_series`].

use vstd::arithmetic::div_mod::lemma_div_pos_is_pos;
use vstd::arithmetic::mul::lemma_mul_inequality;
use vstd::prelude::*;

use crate::base::{Duration, TimeStamp};
use crate::element::{first_ts_geq_from, lemma_first_ts_geq_char, ts_sorted, Element};
use crate::ops::{op_ok, ElementOp};
use crate::sample::Sample;
use crate::window::{spec_num_windows, WindowIter};
use crate::aligned_series::{spec_aligned_values, spec_built_count, spec_end_millis, ConfigError};

verus! {

/// `RawSeries` represents a series of raw timestamped data samples, keyed by
/// plain millisecond timestamps. Callers must append samples in
/// non-decreasing timestamp order; the ordering is a statically checked
/// precondition of `push` and `push_sample`, never a run-time check.
pub struct RawSeries {
    pub values: Vec<Element>,
}

impl View for RawSeries {
    type V = Seq<Element>;

    open spec fn view(&self) -> Seq<Element> {
        self.values@
    }
}

impl RawSeries {
    /// The series' timestamps are in non-decreasing order.
    pub open spec fn wf(&self) -> bool {
        ts_sorted(self@)
    }

    /// Create a new empty series.
    pub fn new() -> (r: RawSeries)
        ensures
            r@ == Seq::<Element>::empty(),
            r.wf(),
    {
        RawSeries { values: Vec::new() }
    }

    /// Returns the last value in the series, or 0 if the series is empty.
    pub fn last_val(&self) -> (r: i64)
        ensures
            r == if self@.len() == 0 {
                0
            } else {
                self@.last().1.spec_val()
            },
    {
        let n = self.values.len();
        if n == 0 {
            0
        } else {
            self.values[n - 1].1.val()
        }
    }

    /// Add a new sample to the series. The timestamp must not be less than
    /// the last sample's timestamp.
    pub fn push(&mut self, ts: i64, value: i64)
        requires
            old(self).wf(),
            old(self)@.len() > 0 ==> ts >= old(self)@.last().0.0,
        ensures
            final(self)@ == old(self)@.push(Element(TimeStamp(ts), Sample::Point(value))),
            final(self).wf(),
    {
        self.push_sample(ts, Sample::point(value))
    }

    /// Add a new sample to the series. The timestamp must not be less than
    /// the last sample's timestamp.
    pub fn push_sample(&mut self, ts: i64, sample: Sample)
        requires
            old(self).wf(),
            old(self)@.len() > 0 ==> ts >= old(self)@.last().0.0,
        ensures
            final(self)@ == old(self)@.push(Element(TimeStamp(ts), sample)),
            final(self).wf(),
    {
        self.values.push(Element(TimeStamp(ts), sample));
        proof {
            let s = self@;
            assert forall|i: int, j: int| 0 <= i < j < s.len() implies s[i].0.0 <= s[j].0.0 by {
                if j == s.len() - 1 {
                    assert(old(self)@[i].0.0 <= old(self)@.last().0.0);
                }
            }
        }
    }

    /// Returns the number of samples in the series.
    pub fn len(&self) -> (r: usize)
        ensures
            r == self@.len(),
    {
        self.values.len()
    }

    /// Returns true if the series is empty.
    pub fn is_empty(&self) -> (r: bool)
        ensures
            r == (self@.len() == 0),
    {
        self.values.len() == 0
    }

    /// Get the sample at the given index.
    pub fn get(&self, index: usize) -> (r: Option<&Element>)
        ensures
            match r {
                Some(e) => index < self@.len() && *e == self@[index as int],
                None => index >= self@.len(),
            },
    {
        if index < self.values.len() {
            Some(&self.values[index])
        } else {
            None
        }
    }

    /// Return an iterator over the epoch-aligned windows of the series.
    pub fn windows(&self, window_size: Duration, start_ts: TimeStamp) -> (r: WindowIter)
        requires
            self.wf(),
            window_size.0 > 0,
            spec_num_windows(self@, start_ts.0 as int, window_size.0 as int) <= usize::MAX,
        ensures
            r.wf(),
            r.series@ == self@,
            r.window_size == window_size,
            r.start_ts == start_ts,
            r.num_windows == spec_num_windows(self@, start_ts.0 as int, window_size.0 as int),
            r.current_window == 0,
            r.last_index == 0,
    {
        let snapshot = crate::raw_series::RawSeries { values: self.values.clone() };
        proof {
            assert(snapshot@ =~= self@);
        }
        WindowIter::new(&snapshot, window_size, start_ts)
    }

    /// Returns the nearest sample at or after the given timestamp: the
    /// element at the minimal index whose timestamp is `>= ts`, or `None`
    /// if every timestamp is below `ts`.
    pub fn at_or_after(&self, ts: TimeStamp) -> (r: Option<&Element>)
        requires
            self.wf(),
        ensures
            ({
                let k = first_ts_geq_from(self@, 0, ts.0 as int);
                match r {
                    Some(e) => k < self@.len() && *e == self@[k],
                    None => k == self@.len(),
                }
            }),
    {
        // Binary search for the first sample with a timestamp greater than or
        // equal to the given timestamp.
        let mut left: usize = 0;
        let mut right: usize = self.values.len();

        while left < right
            invariant
                left <= right <= self@.len(),
                self.wf(),
                forall|i: int| 0 <= i < left ==> self@[i].0.0 < ts.0,
                forall|i: int| right <= i < self@.len() ==> self@[i].0.0 >= ts.0,
            decreases right - left,
        {
            let mid = left + (right - left) / 2;
            if self.values[mid].0.0 < ts.0 {
                left = mid + 1;
            } else {
                right = mid;
            }
        }

        proof {
            lemma_first_ts_geq_char(self@, ts.0 as int, left as int);
        }

        if left < self.values.len() {
            Some(&self.values[left])
        } else {
            None
        }
    }
}

/// `AlignedSeries` represents a time series with a fixed, strictly positive
/// interval between samples.
pub struct AlignedSeries {
    pub start_ts: TimeStamp,
    pub interval: Duration,
    pub values: Vec<Sample>,
}

impl AlignedSeries {
    /// The series' interval is strictly positive.
    pub open spec fn wf(&self) -> bool {
        self.interval.0 > 0
    }

    /// Create a new empty series anchored at the given epoch.
    pub fn new(interval: Duration, start_ts: TimeStamp) -> (r: AlignedSeries)
        requires
            interval.0 > 0,
        ensures
            r.interval == interval,
            r.start_ts == start_ts,
            r.values@ == Seq::<Sample>::empty(),
            r.wf(),
    {
        AlignedSeries { interval, start_ts, values: Vec::new() }
    }

    /// Create a new aligned series from a raw series: aggregate each
    /// epoch-aligned bucket of width `interval` with `op`, in bucket order,
    /// stopping once a bucket's start time exceeds `end_ts` (when given).
    /// Fails, returning no series, exactly when `end_ts` precedes `start_ts`.
    #[verifier::loop_isolation(false)]
    pub fn from_raw_series(
        series: &RawSeries,
        interval: Duration,
        start_ts: TimeStamp,
        end_ts: Option<TimeStamp>,
        op: ElementOp,
    ) -> (r: Result<AlignedSeries, ConfigError>)
        requires
            series.wf(),
            interval.0 > 0,
            !(end_ts is Some && end_ts->Some_0.0 < start_ts.0) ==> spec_num_windows(
                series@,
                start_ts.0 as int,
                interval.0 as int,
            ) <= usize::MAX,
            !(end_ts is Some && end_ts->Some_0.0 < start_ts.0) ==> forall|k: int|
                0 <= k < spec_built_count(
                    series@,
                    interval.0 as int,
                    start_ts.0 as int,
                    spec_end_millis(end_ts),
                ) ==> op_ok(
                    op,
                    crate::ops::samples_of(
                        #[trigger] crate::window::spec_window_elems(
                            series@,
                            start_ts.0 as int,
                            interval.0 as int,
                            k,
                        ),
                    ),
                ),
        ensures
            r is Err <==> (end_ts is Some && end_ts->Some_0.0 < start_ts.0),
            r is Err ==> r == Err::<AlignedSeries, ConfigError>(ConfigError::EndBeforeStart),
            r is Ok ==> ({
                let a = r->Ok_0;
                &&& a.start_ts == start_ts
                &&& a.interval == interval
                &&& a.wf()
                &&& a.values@ == spec_aligned_values(
                    series@,
                    interval.0 as int,
                    start_ts.0 as int,
                    spec_end_millis(end_ts),
                    op,
                )
            }),
    {
        if let Some(e) = end_ts {
            if e.0 < start_ts.0 {
                return Err(ConfigError::EndBeforeStart);
            }
        }

        let ghost sq = series@;
        let ghost start_i = start_ts.0 as int;
        let ghost w_i = interval.0 as int;
        let ghost end_i = spec_end_millis(end_ts);

        let mut aligned_series = AlignedSeries::new(interval, start_ts);
        let mut aggs = series.windows(interval, start_ts).samples().aggregate(op);
        let num = aggs.iter.iter.num_windows;

        // The number of buckets to keep: all of them, or only those whose
        // start time does not exceed the cutoff.
        let built: usize = match end_ts {
            None => num,
            Some(e) => {
                proof {
                    lemma_div_pos_is_pos(e.0 - start_ts.0 as int, w_i);
                }
                let cut = (e.0 as i128 - start_ts.0 as i128) / (interval.0 as i128) + 1;
                if num as i128 <= cut {
                    num
                } else {
                    cut as usize
                }
            },
        };

        proof {
            assert(built as int == spec_built_count(sq, w_i, start_i, end_i));
            assert(aligned_series.values@ =~= spec_aligned_values(
                sq,
                w_i,
                start_i,
                end_i,
                op,
            ).take(0));
        }

        let mut k: usize = 0;
        while k < built
            invariant
                aggs.f == op,
                aggs.iter.iter.wf(),
                aggs.iter.iter.series@ == sq,
                aggs.iter.iter.window_size == interval,
                aggs.iter.iter.start_ts == start_ts,
                aggs.iter.iter.current_window == k,
                aggs.iter.iter.num_windows == spec_num_windows(sq, start_i, w_i),
                0 <= k <= built,
                aligned_series.wf(),
                aligned_series.start_ts == start_ts,
                aligned_series.interval == interval,
                aligned_series.values@ == spec_aligned_values(sq, w_i, start_i, end_i, op).take(
                    k as int,
                ),
            decreases built - k,
        {
            let s = aggs.next().unwrap();
            aligned_series.push_sample(s);
            proof {
                assert(aligned_series.values@ =~= spec_aligned_values(
                    sq,
                    w_i,
                    start_i,
                    end_i,
                    op,
                ).take(k as int + 1));
            }
            k = k + 1;
        }
        proof {
            assert(aligned_series.values@ =~= spec_aligned_values(sq, w_i, start_i, end_i, op));
        }

        Ok(aligned_series)
    }

    /// Add a new value to the series.
    pub fn push(&mut self, value: i64)
        ensures
            final(self).values@ == old(self).values@.push(Sample::Point(value)),
            final(self).start_ts == old(self).start_ts,
            final(self).interval == old(self).interval,
    {
        self.push_sample(Sample::point(value));
    }

    /// Add a new sample to the series.
    pub fn push_sample(&mut self, sample: Sample)
        ensures
            final(self).values@ == old(self).values@.push(sample),
            final(self).start_ts == old(self).start_ts,
            final(self).interval == old(self).interval,
    {
        self.values.push(sample);
    }

    /// Returns the number of samples in the series.
    pub fn len(&self) -> (r: usize)
        ensures
            r == self.values@.len(),
    {
        self.values.len()
    }

    /// Returns true if the series is empty.
    pub fn is_empty(&self) -> (r: bool)
        ensures
            r == (self.values@.len() == 0),
    {
        self.values.len() == 0
    }

    /// Get the nearest sample at or after the given timestamp. A timestamp
    /// at or before the epoch answers with the first sample; one exactly on
    /// a bucket boundary answers with that bucket; any other answers with
    /// the next bucket, honoring "at or after". `None` past the end.
    pub fn at_or_after(&self, ts: TimeStamp) -> (r: Option<Element>)
        requires
            self.wf(),
            self.values@.len() == 0 || self.start_ts.0 + (self.values@.len() - 1)
                * self.interval.0 <= i64::MAX,
        ensures
            ({
                let start = self.start_ts.0 as int;
                let w = self.interval.0 as int;
                let vals = self.values@;
                if ts.0 <= start {
                    if vals.len() == 0 {
                        r is None
                    } else {
                        r == Some(Element(self.start_ts, vals[0]))
                    }
                } else {
                    let d = ts.0 - start;
                    if d % w == 0 {
                        let idx = d / w;
                        if idx < vals.len() {
                            r == Some(Element(ts, vals[idx]))
                        } else {
                            r is None
                        }
                    } else {
                        let idx = d / w + 1;
                        if idx < vals.len() {
                            r == Some(Element(TimeStamp((start + idx * w) as i64), vals[idx]))
                        } else {
                            r is None
                        }
                    }
                }
            }),
    {
        if ts.0 <= self.start_ts.0 {
            if self.values.len() == 0 {
                return None;
            }
            return Some(Element(self.start_ts, self.values[0]));
        }

        let d: i128 = ts.0 as i128 - self.start_ts.0 as i128;
        let w: i128 = self.interval.0 as i128;
        let n: i128 = self.values.len() as i128;

        if d % w == 0 {
            let q = d / w;
            proof {
                lemma_div_pos_is_pos(d as int, w as int);
            }
            if q < n {
                let idx = q as usize;
                Some(Element(ts, self.values[idx]))
            } else {
                None
            }
        } else {
            let q = d / w + 1;
            proof {
                lemma_div_pos_is_pos(d as int, w as int);
            }
            if q < n {
                let idx = q as usize;
                proof {
                    lemma_mul_inequality(q as int, self.values@.len() - 1, self.interval.0 as int);
                    vstd::arithmetic::mul::lemma_mul_is_commutative(
                        q as int,
                        self.interval.0 as int,
                    );
                    vstd::arithmetic::mul::lemma_mul_is_commutative(
                        self.values@.len() - 1,
                        self.interval.0 as int,
                    );
                    vstd::arithmetic::mul::lemma_mul_nonnegative(q as int, self.interval.0 as int);
                }
                let out_ts: i64 = (self.start_ts.0 as i128 + q * w) as i64;
                Some(Element(TimeStamp(out_ts), self.values[idx]))
            } else {
                None
            }
        }
    }
}

} // verus!
