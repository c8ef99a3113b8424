//! A minimal sampling toolkit: a three-state sample, a series of plain
//! (millisecond, sample) pairs, and windowing that either materializes
//! every bucket at once or iterates them one at a time. The bucketing
//! itself runs through the same machinery as [`crate::window`].

use vstd::prelude::*;

use crate::base::{Duration, TimeStamp};
use crate::element::{ts_sorted, Element};
use crate::window::{spec_num_windows, spec_window};

verus! {

/// One reading: a real value, an explicit reset, or nothing valid.
#[derive(Debug, Clone, Copy, PartialEq, Eq, Structural)]
pub enum Sample {
    Error,
    Zero,
    Point(i64),
}

impl Sample {
    /// The usable scalar carried by the sample: 0 for `Error` and `Zero`.
    pub open spec fn spec_val(self) -> i64 {
        match self {
            Sample::Error => 0,
            Sample::Zero => 0,
            Sample::Point(v) => v,
        }
    }

    /// Create a new sample with the given value.
    pub fn point(value: i64) -> (r: Sample)
        ensures
            r == Sample::Point(value),
    {
        Sample::Point(value)
    }

    /// Create a zero-valued (reset) sample.
    pub fn zero() -> (r: Sample)
        ensures
            r == Sample::Zero,
    {
        Sample::Zero
    }

    /// Returns true if the sample is an error.
    pub fn is_err(&self) -> (r: bool)
        ensures
            r == (self is Error),
    {
        matches!(self, Sample::Error)
    }

    /// Returns a copy of the sample value (0 for `Error` and `Zero`).
    pub fn val(&self) -> (r: i64)
        ensures
            r == self.spec_val(),
    {
        match self {
            Sample::Error => 0,
            Sample::Zero => 0,
            Sample::Point(v) => *v,
        }
    }
}

/// The three-state sample as the richer sample model sees it.
pub open spec fn sample_view(s: Sample) -> crate::sample::Sample {
    match s {
        Sample::Error => crate::sample::Sample::Error,
        Sample::Zero => crate::sample::Sample::Zero,
        Sample::Point(v) => crate::sample::Sample::Point(v),
    }
}

/// A (millisecond, sample) pair as a timestamped element.
pub open spec fn as_elements(s: Seq<(i64, Sample)>) -> Seq<Element> {
    s.map_values(|p: (i64, Sample)| Element(TimeStamp(p.0), sample_view(p.1)))
}

/// A window is either empty or an inclusive range of indices into the
/// series it was produced from.
#[derive(Debug, Clone, Copy, PartialEq, Eq, Structural)]
pub enum Window {
    Empty,
    Range(usize, usize),
}

impl Window {
    /// Returns true if the window is empty.
    pub fn is_empty(&self) -> (r: bool)
        ensures
            r == (self is Empty),
    {
        matches!(self, Window::Empty)
    }

    /// Returns true if the window is a range.
    pub fn is_range(&self) -> (r: bool)
        ensures
            r == (self is Range),
    {
        matches!(self, Window::Range(_, _))
    }
}

/// This module's window, as produced from the shared bucketing machinery.
pub open spec fn win_view(w: crate::window::Window) -> Window {
    match w {
        crate::window::Window::Empty => Window::Empty,
        crate::window::Window::Range(s, e) => Window::Range(s, e),
    }
}

/// Presentation settings for a series' consumers: the timezone its
/// timestamps are rendered in. The core never reads it.
pub struct RawConfig {
    pub tz: String,
}

/// A series of raw (millisecond, sample) pairs. Callers must append samples
/// in non-decreasing timestamp order; the ordering is a statically checked
/// precondition of `push` and `push_sample`, never a run-time check.
pub struct Series {
    pub values: Vec<(i64, Sample)>,
}

impl Series {
    /// The series' timestamps are in non-decreasing order.
    pub open spec fn wf(&self) -> bool {
        forall|i: int, j: int|
            0 <= i < j < self.values@.len() ==> self.values@[i].0 <= self.values@[j].0
    }

    /// Create a new empty series.
    pub fn new() -> (r: Series)
        ensures
            r.values@ == Seq::<(i64, Sample)>::empty(),
            r.wf(),
    {
        Series { values: Vec::new() }
    }

    /// Returns the last value in the series, or 0 if the series is empty.
    pub fn last_val(&self) -> (r: i64)
        ensures
            r == if self.values@.len() == 0 {
                0
            } else {
                self.values@.last().1.spec_val()
            },
    {
        let n = self.values.len();
        if n == 0 {
            0
        } else {
            self.values[n - 1].1.val()
        }
    }

    /// Add a new sample to the series. The timestamp must not be less than
    /// the last sample's timestamp.
    pub fn push(&mut self, ts: i64, value: i64)
        requires
            old(self).wf(),
            old(self).values@.len() > 0 ==> ts >= old(self).values@.last().0,
        ensures
            final(self).values@ == old(self).values@.push((ts, Sample::Point(value))),
            final(self).wf(),
    {
        self.push_sample(ts, Sample::point(value))
    }

    /// Add a new sample to the series. The timestamp must not be less than
    /// the last sample's timestamp.
    pub fn push_sample(&mut self, ts: i64, sample: Sample)
        requires
            old(self).wf(),
            old(self).values@.len() > 0 ==> ts >= old(self).values@.last().0,
        ensures
            final(self).values@ == old(self).values@.push((ts, sample)),
            final(self).wf(),
    {
        self.values.push((ts, sample));
        proof {
            let s = self.values@;
            assert forall|i: int, j: int| 0 <= i < j < s.len() implies s[i].0 <= s[j].0 by {
                if j == s.len() - 1 {
                    assert(old(self).values@[i].0 <= old(self).values@.last().0);
                }
            }
        }
    }

    /// Returns the number of samples in the series.
    pub fn len(&self) -> (r: usize)
        ensures
            r == self.values@.len(),
    {
        self.values.len()
    }

    /// Returns true if the series is empty.
    pub fn is_empty(&self) -> (r: bool)
        ensures
            r == (self.values@.len() == 0),
    {
        self.values.len() == 0
    }

    /// Get the timestamp and plain value at the given index.
    pub fn get(&self, index: usize) -> (r: Option<(i64, i64)>)
        ensures
            match r {
                Some(p) => index < self.values@.len() && p == (
                    self.values@[index as int].0,
                    self.values@[index as int].1.spec_val(),
                ),
                None => index >= self.values@.len(),
            },
    {
        if index < self.values.len() {
            let (ts, sample) = self.values[index];
            Some((ts, sample.val()))
        } else {
            None
        }
    }

    /// Materialize every epoch-aligned bucket of the series at once, in
    /// bucket order: each bucket's exact index range, or `Empty` for a
    /// bucket no sample falls in.
    #[verifier::loop_isolation(false)]
    pub fn windows(&self, window_size: Duration, start_ts: i64) -> (r: Vec<Window>)
        requires
            self.wf(),
            window_size.0 > 0,
            spec_num_windows(as_elements(self.values@), start_ts as int, window_size.0 as int)
                <= usize::MAX,
        ensures
            r@.len() == spec_num_windows(
                as_elements(self.values@),
                start_ts as int,
                window_size.0 as int,
            ),
            forall|k: int|
                0 <= k < r@.len() ==> r@[k] == win_view(
                    #[trigger] spec_window(
                        as_elements(self.values@),
                        start_ts as int,
                        window_size.0 as int,
                        k,
                    ),
                ),
    {
        let mut iter = self.windows_iter(window_size, start_ts);
        let n = iter.inner.num_windows;
        let mut out: Vec<Window> = Vec::new();

        while out.len() < n
            invariant
                iter.inner.wf(),
                iter.inner.series@ == as_elements(self.values@),
                iter.inner.window_size == window_size,
                iter.inner.start_ts == TimeStamp(start_ts),
                iter.inner.num_windows == n,
                iter.inner.current_window == out@.len(),
                out@.len() <= n,
                forall|k: int|
                    0 <= k < out@.len() ==> out@[k] == win_view(
                        #[trigger] spec_window(
                            as_elements(self.values@),
                            start_ts as int,
                            window_size.0 as int,
                            k,
                        ),
                    ),
            decreases n - out@.len(),
        {
            let w = iter.next().unwrap();
            out.push(w);
        }
        out
    }

    /// Iterate the epoch-aligned buckets of the series one at a time.
    pub fn windows_iter(&self, window_size: Duration, start_ts: i64) -> (r: WindowIter)
        requires
            self.wf(),
            window_size.0 > 0,
            spec_num_windows(as_elements(self.values@), start_ts as int, window_size.0 as int)
                <= usize::MAX,
        ensures
            r.inner.wf(),
            r.inner.series@ == as_elements(self.values@),
            r.inner.window_size == window_size,
            r.inner.start_ts == TimeStamp(start_ts),
            r.inner.num_windows == spec_num_windows(
                as_elements(self.values@),
                start_ts as int,
                window_size.0 as int,
            ),
            r.inner.current_window == 0,
    {
        WindowIter::new(self, window_size, start_ts)
    }
}

/// An iterator over the epoch-aligned buckets of a [`Series`], built on the
/// shared bucketing machinery.
pub struct WindowIter {
    pub inner: crate::window::WindowIter,
}

impl WindowIter {
    /// Create a new window iterator over a snapshot of `series`.
    #[verifier::loop_isolation(false)]
    pub fn new(series: &Series, window_size: Duration, start_ts: i64) -> (r: WindowIter)
        requires
            series.wf(),
            window_size.0 > 0,
            spec_num_windows(as_elements(series.values@), start_ts as int, window_size.0 as int)
                <= usize::MAX,
        ensures
            r.inner.wf(),
            r.inner.series@ == as_elements(series.values@),
            r.inner.window_size == window_size,
            r.inner.start_ts == TimeStamp(start_ts),
            r.inner.num_windows == spec_num_windows(
                as_elements(series.values@),
                start_ts as int,
                window_size.0 as int,
            ),
            r.inner.current_window == 0,
    {
        let ghost target = as_elements(series.values@);
        let mut elems: Vec<Element> = Vec::new();
        let mut i: usize = 0;

        proof {
            assert(elems@ =~= target.take(0));
        }
        while i < series.values.len()
            invariant
                0 <= i <= series.values@.len(),
                elems@ == target.take(i as int),
            decreases series.values@.len() - i,
        {
            let (ts, sample) = series.values[i];
            let s = match sample {
                Sample::Error => crate::sample::Sample::Error,
                Sample::Zero => crate::sample::Sample::Zero,
                Sample::Point(v) => crate::sample::Sample::Point(v),
            };
            elems.push(Element(TimeStamp(ts), s));
            proof {
                assert(elems@ =~= target.take(i as int + 1));
            }
            i += 1;
        }
        proof {
            assert(elems@ =~= target);
            assert forall|a: int, b: int| 0 <= a < b < target.len() implies target[a].0.0
                <= target[b].0.0 by {
                assert(series.values@[a].0 <= series.values@[b].0);
            }
            assert(ts_sorted(target));
        }

        let snapshot = crate::raw_series::RawSeries { values: elems };
        WindowIter { inner: crate::window::WindowIter::new(&snapshot, window_size, TimeStamp(start_ts)) }
    }

    /// Returns the next window: the exact index range of the current
    /// bucket, or `Empty` if no sample falls in it; `None` once every
    /// bucket has been yielded.
    pub fn next(&mut self) -> (r: Option<Window>)
        requires
            old(self).inner.wf(),
        ensures
            final(self).inner.wf(),
            final(self).inner.series@ == old(self).inner.series@,
            final(self).inner.window_size == old(self).inner.window_size,
            final(self).inner.start_ts == old(self).inner.start_ts,
            final(self).inner.num_windows == old(self).inner.num_windows,
            old(self).inner.current_window >= old(self).inner.num_windows ==> r is None
                && *final(self) == *old(self),
            old(self).inner.current_window < old(self).inner.num_windows ==> ({
                &&& final(self).inner.current_window == old(self).inner.current_window + 1
                &&& r == Some(
                    win_view(
                        spec_window(
                            old(self).inner.series@,
                            old(self).inner.start_ts.0 as int,
                            old(self).inner.window_size.0 as int,
                            old(self).inner.current_window as int,
                        ),
                    ),
                )
            }),
    {
        match self.inner.next() {
            None => None,
            Some(crate::window::Window::Empty) => Some(Window::Empty),
            Some(crate::window::Window::Range(s, e)) => Some(Window::Range(s, e)),
        }
    }
}

} // verus!
