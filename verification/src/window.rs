//! Windowing: deterministically map a raw series' timestamp axis onto
//! consecutive, half-open, epoch-aligned buckets of a fixed width. Bucket `k`
//! covers `[start_ts + k*interval, start_ts + (k+1)*interval)`.
//!
//! The iterator scans the series once, left to right, whatever the number of
//! buckets: `last_index` only ever moves forward.

use vstd::arithmetic::div_mod::{
    lemma_div_is_ordered, lemma_div_pos_is_pos, lemma_fundamental_div_mod,
    lemma_fundamental_div_mod_converse, lemma_mod_bound,
};
use vstd::arithmetic::mul::lemma_mul_inequality;
use vstd::prelude::*;

use crate::base::{Duration, TimeStamp};
use crate::element::{
    first_ts_geq_from, lemma_first_ts_geq_char, lemma_first_ts_geq_from, ts_sorted, Element,
};
use crate::ops::{op_ok, samples_of, spec_apply, ElementOp};
use crate::raw_series::RawSeries;
use crate::sample::Sample;

verus! {

/// The lower bound of bucket `k`; the bucket covers timestamps in
/// `[win_lo(start, w, k), win_lo(start, w, k + 1))`.
pub open spec fn win_lo(start: int, w: int, k: int) -> int {
    start + k * w
}

/// Whether timestamp `t` falls in bucket `k`.
pub open spec fn in_win(start: int, w: int, k: int, t: int) -> bool {
    win_lo(start, w, k) <= t < win_lo(start, w, k + 1)
}

/// How many buckets the iteration yields: none for an empty series or one
/// whose last timestamp precedes the epoch, else the index of the last
/// sample's bucket plus one.
pub open spec fn spec_num_windows(s: Seq<Element>, start: int, w: int) -> int {
    if s.len() == 0 || s.last().0.0 < start {
        0
    } else {
        (s.last().0.0 - start) / w + 1
    }
}

/// The first raw index belonging to bucket `k` (timestamps being sorted).
pub open spec fn window_lo_idx(s: Seq<Element>, start: int, w: int, k: int) -> int {
    first_ts_geq_from(s, 0, win_lo(start, w, k))
}

/// One past the last raw index belonging to bucket `k`.
pub open spec fn window_hi_idx(s: Seq<Element>, start: int, w: int, k: int) -> int {
    first_ts_geq_from(s, 0, win_lo(start, w, k + 1))
}

/// What the iterator yields for bucket `k`: the inclusive index range of the
/// bucket's elements, or `Empty` when no element falls in it.
pub open spec fn spec_window(s: Seq<Element>, start: int, w: int, k: int) -> Window {
    if window_lo_idx(s, start, w, k) == window_hi_idx(s, start, w, k) {
        Window::Empty
    } else {
        Window::Range(
            window_lo_idx(s, start, w, k) as usize,
            (window_hi_idx(s, start, w, k) - 1) as usize,
        )
    }
}

/// The elements that fall in bucket `k`.
pub open spec fn spec_window_elems(s: Seq<Element>, start: int, w: int, k: int) -> Seq<Element> {
    s.subrange(window_lo_idx(s, start, w, k), window_hi_idx(s, start, w, k))
}

/// A bucket's index bounds are ordered and lie within the series.
pub proof fn lemma_window_idx_bounds(s: Seq<Element>, start: int, w: int, k: int)
    requires
        w > 0,
    ensures
        0 <= window_lo_idx(s, start, w, k) <= window_hi_idx(s, start, w, k) <= s.len(),
{
    let lo_t = win_lo(start, w, k);
    let hi_t = win_lo(start, w, k + 1);
    assert((k + 1) * w == k * w + w) by (nonlinear_arith);
    lemma_first_ts_geq_from(s, 0, lo_t);
    lemma_first_ts_geq_from(s, 0, hi_t);
    let lo = first_ts_geq_from(s, 0, lo_t);
    let hi = first_ts_geq_from(s, 0, hi_t);
    if hi < lo {
        assert(s[hi].0.0 < lo_t);
        assert(s[hi].0.0 >= hi_t);
    }
}

/// A bucket index below the bucket count starts at or before the last
/// timestamp.
proof fn lemma_win_lo_le_last(last: int, start: int, w: int, k: int)
    requires
        w > 0,
        start <= last,
        0 <= k < (last - start) / w + 1,
    ensures
        k * w <= last - start,
        win_lo(start, w, k) <= last,
{
    let x = last - start;
    lemma_fundamental_div_mod(x, w);
    lemma_mod_bound(x, w);
    lemma_mul_inequality(k, x / w, w);
}

/// A window is either empty or an inclusive range of indices into the raw
/// series snapshot it was produced from.
#[derive(Debug, Clone, Copy, PartialEq, Eq, Structural)]
pub enum Window {
    Empty,
    Range(usize, usize),
}

impl Window {
    /// Returns true if the window is empty.
    pub fn is_empty(&self) -> (r: bool)
        ensures
            r == (self is Empty),
    {
        matches!(self, Window::Empty)
    }

    /// Returns true if the window is a range.
    pub fn is_range(&self) -> (r: bool)
        ensures
            r == (self is Range),
    {
        matches!(self, Window::Range(_, _))
    }
}

/// An iterator over the epoch-aligned buckets of a series. It owns a
/// snapshot of the series' elements, so later appends to the source series
/// cannot invalidate the windows it yields.
#[derive(Debug, Clone)]
pub struct WindowIter {
    /// The snapshot of the series being iterated over.
    pub series: Vec<Element>,

    /// The width of each bucket.
    pub window_size: Duration,

    /// The epoch: the lower bound of bucket 0.
    pub start_ts: TimeStamp,

    /// The number of buckets the iteration yields.
    pub num_windows: usize,

    /// The bucket the next call yields.
    pub current_window: usize,

    /// The lowest raw index not yet consumed; it only moves forward, which
    /// keeps the whole iteration a single linear scan.
    pub last_index: usize,
}

impl WindowIter {
    /// The iterator's bookkeeping is consistent with its snapshot: the
    /// width is positive, the snapshot is sorted, the bucket count is the
    /// one the snapshot calls for, and everything below `last_index` falls
    /// before the current bucket.
    pub open spec fn wf(&self) -> bool {
        &&& self.window_size.0 > 0
        &&& ts_sorted(self.series@)
        &&& self.num_windows == spec_num_windows(
            self.series@,
            self.start_ts.0 as int,
            self.window_size.0 as int,
        )
        &&& self.last_index <= self.series@.len()
        &&& forall|i: int|
            0 <= i < self.last_index ==> self.series@[i].0.0 < win_lo(
                self.start_ts.0 as int,
                self.window_size.0 as int,
                self.current_window as int,
            )
    }

    /// Create a new window iterator over a snapshot of `series`.
    pub fn new(series: &RawSeries, window_size: Duration, start_ts: TimeStamp) -> (r: WindowIter)
        requires
            series.wf(),
            window_size.0 > 0,
            spec_num_windows(series@, start_ts.0 as int, window_size.0 as int) <= usize::MAX,
        ensures
            r.wf(),
            r.series@ == series@,
            r.window_size == window_size,
            r.start_ts == start_ts,
            r.num_windows == spec_num_windows(series@, start_ts.0 as int, window_size.0 as int),
            r.current_window == 0,
            r.last_index == 0,
    {
        let n = series.values.len();
        let snapshot = series.values.clone();
        proof {
            assert(snapshot@ =~= series.values@);
        }

        let num_windows: usize = if n == 0 {
            0
        } else {
            let last_ts = series.values[n - 1].0.0;
            if last_ts < start_ts.0 {
                0
            } else {
                proof {
                    lemma_div_pos_is_pos(last_ts - start_ts.0, window_size.0 as int);
                }
                let diff = last_ts as i128 - start_ts.0 as i128;
                let q = diff / (window_size.0 as i128);
                (q + 1) as usize
            }
        };

        WindowIter {
            series: snapshot,
            window_size,
            start_ts,
            num_windows,
            current_window: 0,
            last_index: 0,
        }
    }

    /// Hand the iterator on as a source of the buckets' element slices.
    pub fn samples(self) -> (r: WindowSamples)
        ensures
            r.iter == self,
    {
        WindowSamples { iter: self }
    }

    /// Returns the next window: the exact index range of bucket
    /// `current_window`, or `Empty` if no element falls in that bucket;
    /// `None` once every bucket has been yielded.
    #[verifier::loop_isolation(false)]
    pub fn next(&mut self) -> (r: Option<Window>)
        requires
            old(self).wf(),
        ensures
            final(self).wf(),
            final(self).series@ == old(self).series@,
            final(self).window_size == old(self).window_size,
            final(self).start_ts == old(self).start_ts,
            final(self).num_windows == old(self).num_windows,
            old(self).current_window >= old(self).num_windows ==> r is None && *final(self)
                == *old(self),
            old(self).current_window < old(self).num_windows ==> ({
                &&& final(self).current_window == old(self).current_window + 1
                &&& r == Some(
                    spec_window(
                        old(self).series@,
                        old(self).start_ts.0 as int,
                        old(self).window_size.0 as int,
                        old(self).current_window as int,
                    ),
                )
            }),
    {
        if self.current_window >= self.num_windows {
            return None;
        }

        let ghost sq = self.series@;
        let ghost start_i = self.start_ts.0 as int;
        let ghost w_i = self.window_size.0 as int;
        let ghost k_i = self.current_window as int;

        let w = self.window_size.0;
        let start = self.start_ts.0;
        let k = self.current_window;

        proof {
            // There is a bucket to yield, so the snapshot is non-empty and
            // its last timestamp is at or past the epoch.
            assert(sq.len() > 0 && sq.last().0.0 >= start_i);
            lemma_win_lo_le_last(sq.last().0.0 as int, start_i, w_i, k_i);
            assert((k_i + 1) * w_i == k_i * w_i + w_i) by (nonlinear_arith);
        }

        let ws128: i128 = start as i128 + (k as i128) * (w as i128);
        let ws: i64 = ws128 as i64;
        let we128: i128 = ws128 + w as i128;

        proof {
            assert(ws == win_lo(start_i, w_i, k_i));
            assert(we128 == win_lo(start_i, w_i, k_i + 1));
        }

        // Scan forward from the first unconsumed index for the first element
        // at or past the bucket's lower bound.
        let mut j: usize = self.last_index;
        while j < self.series.len() && self.series[j].0.0 < ws
            invariant
                self.last_index <= j <= self.series@.len(),
                forall|i: int| self.last_index <= i < j ==> self.series@[i].0.0 < ws,
            decreases self.series@.len() - j,
        {
            j += 1;
        }

        proof {
            assert forall|i: int| 0 <= i < j implies sq[i].0.0 < ws by {}
            // The last element is at or past the bucket's lower bound, so the
            // scan stopped inside the series.
            assert(j < sq.len()) by {
                if j == sq.len() {
                    assert(sq[sq.len() - 1].0.0 < ws);
                }
            }
            lemma_first_ts_geq_char(sq, ws as int, j as int);
        }

        if self.series[j].0.0 as i128 >= we128 {
            // The first element at or past the bucket's lower bound already
            // lies past its upper bound: the bucket is empty. The skipped
            // prefix lies below every later bucket, so it need not be
            // rescanned.
            proof {
                lemma_first_ts_geq_char(sq, win_lo(start_i, w_i, k_i + 1), j as int);
            }
            self.last_index = j;
            self.current_window = k + 1;
            Some(Window::Empty)
        } else {
            // Scan on for the first element at or past the bucket's upper
            // bound; the bucket ends just before it, or at the end of the
            // series.
            let mut m: usize = j + 1;
            while m < self.series.len() && (self.series[m].0.0 as i128) < we128
                invariant
                    j < m <= self.series@.len(),
                    forall|i: int|
                        j < i < m ==> (self.series@[i].0.0 as int) < win_lo(
                            start_i,
                            w_i,
                            k_i + 1,
                        ),
                decreases self.series@.len() - m,
            {
                m += 1;
            }

            proof {
                assert forall|i: int| 0 <= i < m implies sq[i].0.0 < win_lo(
                    start_i,
                    w_i,
                    k_i + 1,
                ) by {}
                lemma_first_ts_geq_char(sq, win_lo(start_i, w_i, k_i + 1), m as int);
            }

            self.last_index = m;
            self.current_window = k + 1;
            Some(Window::Range(j, m - 1))
        }
    }
}

/// Maps each window in turn to the bucket's elements, copied out of the
/// snapshot (an empty vector for an empty bucket).
pub struct WindowSamples {
    pub iter: WindowIter,
}

impl WindowSamples {
    /// Hand the elements on to an aggregation operator, bucket by bucket.
    pub fn aggregate(self, f: ElementOp) -> (r: WindowAggregates)
        ensures
            r.iter == self,
            r.f == f,
    {
        WindowAggregates { iter: self, f }
    }

    /// Returns the elements of the next bucket, or `None` once every bucket
    /// has been yielded.
    #[verifier::loop_isolation(false)]
    pub fn next(&mut self) -> (r: Option<Vec<Element>>)
        requires
            old(self).iter.wf(),
        ensures
            final(self).iter.wf(),
            final(self).iter.series@ == old(self).iter.series@,
            final(self).iter.window_size == old(self).iter.window_size,
            final(self).iter.start_ts == old(self).iter.start_ts,
            final(self).iter.num_windows == old(self).iter.num_windows,
            old(self).iter.current_window >= old(self).iter.num_windows ==> r is None
                && *final(self) == *old(self),
            old(self).iter.current_window < old(self).iter.num_windows ==> ({
                &&& final(self).iter.current_window == old(self).iter.current_window + 1
                &&& r is Some
                &&& r->Some_0@ == spec_window_elems(
                    old(self).iter.series@,
                    old(self).iter.start_ts.0 as int,
                    old(self).iter.window_size.0 as int,
                    old(self).iter.current_window as int,
                )
            }),
    {
        let ghost sq = self.iter.series@;
        let ghost start_i = self.iter.start_ts.0 as int;
        let ghost w_i = self.iter.window_size.0 as int;
        let ghost k_i = self.iter.current_window as int;

        let n = self.iter.series.len();

        match self.iter.next() {
            None => None,
            Some(Window::Empty) => {
                proof {
                    lemma_window_idx_bounds(sq, start_i, w_i, k_i);
                    assert(spec_window_elems(sq, start_i, w_i, k_i) =~= Seq::<Element>::empty());
                }
                Some(Vec::new())
            },
            Some(Window::Range(s, e)) => {
                proof {
                    lemma_window_idx_bounds(sq, start_i, w_i, k_i);
                }
                let mut out: Vec<Element> = Vec::new();
                let mut i: usize = s;
                proof {
                    assert(out@ =~= sq.subrange(s as int, s as int));
                }
                while i <= e
                    invariant
                        s <= i <= e + 1,
                        e < sq.len(),
                        out@ == sq.subrange(s as int, i as int),
                    decreases e + 1 - i,
                {
                    proof {
                        let sub = sq.subrange(s as int, i as int);
                        assert(sq.subrange(s as int, i as int + 1) =~= sub.push(sq[i as int]));
                    }
                    out.push(self.iter.series[i]);
                    i += 1;
                }
                proof {
                    assert(out@ =~= spec_window_elems(sq, start_i, w_i, k_i));
                }
                Some(out)
            },
        }
    }
}

/// Maps each window in turn to the aggregation operator's output sample, in
/// bucket order.
pub struct WindowAggregates {
    pub iter: WindowSamples,
    pub f: ElementOp,
}

impl WindowAggregates {
    /// Returns the next bucket reduced by the operator, or `None` once every
    /// bucket has been yielded.
    pub fn next(&mut self) -> (r: Option<Sample>)
        requires
            old(self).iter.iter.wf(),
            old(self).iter.iter.current_window < old(self).iter.iter.num_windows ==> op_ok(
                old(self).f,
                samples_of(
                    spec_window_elems(
                        old(self).iter.iter.series@,
                        old(self).iter.iter.start_ts.0 as int,
                        old(self).iter.iter.window_size.0 as int,
                        old(self).iter.iter.current_window as int,
                    ),
                ),
            ),
        ensures
            final(self).f == old(self).f,
            final(self).iter.iter.wf(),
            final(self).iter.iter.series@ == old(self).iter.iter.series@,
            final(self).iter.iter.window_size == old(self).iter.iter.window_size,
            final(self).iter.iter.start_ts == old(self).iter.iter.start_ts,
            final(self).iter.iter.num_windows == old(self).iter.iter.num_windows,
            old(self).iter.iter.current_window >= old(self).iter.iter.num_windows ==> r is None
                && *final(self) == *old(self),
            old(self).iter.iter.current_window < old(self).iter.iter.num_windows ==> ({
                &&& final(self).iter.iter.current_window == old(self).iter.iter.current_window
                    + 1
                &&& r == Some(
                    spec_apply(
                        old(self).f,
                        samples_of(
                            spec_window_elems(
                                old(self).iter.iter.series@,
                                old(self).iter.iter.start_ts.0 as int,
                                old(self).iter.iter.window_size.0 as int,
                                old(self).iter.iter.current_window as int,
                            ),
                        ),
                    ),
                )
            }),
    {
        match self.iter.next() {
            None => None,
            Some(v) => Some(self.f.apply(v.as_slice())),
        }
    }
}

/// Window coverage law: over a sorted series whose first timestamp is at or
/// past the epoch, the buckets tile the index space. The bucket count is
/// `floor((last_ts - start)/w) + 1`; each raw index falls in the bucket its
/// timestamp selects and in no other; and consecutive buckets meet exactly
/// (each bucket ends where the next begins), so together the windows are
/// contiguous, non-overlapping, and cover every raw index exactly once.
pub proof fn lemma_window_coverage(s: Seq<Element>, start: int, w: int)
    requires
        ts_sorted(s),
        w > 0,
        s.len() > 0,
        start <= s[0].0.0,
    ensures
        spec_num_windows(s, start, w) == (s.last().0.0 - start) / w + 1,
        forall|k: int|
            #![trigger window_hi_idx(s, start, w, k)]
            window_hi_idx(s, start, w, k) == window_lo_idx(s, start, w, k + 1),
        forall|i: int|
            0 <= i < s.len() ==> 0 <= #[trigger] ((s[i].0.0 - start) / w) < spec_num_windows(
                s,
                start,
                w,
            ),
        forall|k: int, i: int|
            #![trigger window_lo_idx(s, start, w, k), s[i]]
            0 <= i < s.len() ==> ((window_lo_idx(s, start, w, k) <= i < window_hi_idx(
                s,
                start,
                w,
                k,
            )) <==> k == (s[i].0.0 - start) / w),
{
    assert(s.last().0.0 >= s[0].0.0 >= start);

    assert forall|i: int| 0 <= i < s.len() implies 0 <= #[trigger] ((s[i].0.0 - start) / w)
        < spec_num_windows(s, start, w) by {
        assert(s[i].0.0 >= s[0].0.0);
        assert(s[i].0.0 <= s.last().0.0);
        lemma_div_pos_is_pos(s[i].0.0 - start, w);
        lemma_div_is_ordered(s[i].0.0 - start, s.last().0.0 - start, w);
    }

    assert forall|k: int, i: int|
        #![trigger window_lo_idx(s, start, w, k), s[i]]
        0 <= i < s.len() implies ((window_lo_idx(s, start, w, k) <= i < window_hi_idx(
        s,
        start,
        w,
        k,
    )) <==> k == (s[i].0.0 - start) / w) by {
        let t = s[i].0.0 as int;
        let lo_t = win_lo(start, w, k);
        let hi_t = win_lo(start, w, k + 1);
        let lo = window_lo_idx(s, start, w, k);
        let hi = window_hi_idx(s, start, w, k);
        assert((k + 1) * w == k * w + w) by (nonlinear_arith);
        lemma_first_ts_geq_from(s, 0, lo_t);
        lemma_first_ts_geq_from(s, 0, hi_t);
        lemma_fundamental_div_mod(t - start, w);
        lemma_mod_bound(t - start, w);

        if lo <= i < hi {
            // The element's timestamp lies inside the bucket's bounds, so
            // the bucket index is the quotient.
            assert(lo < s.len());
            assert(s[lo].0.0 >= lo_t);
            assert(t >= lo_t);
            assert(t < hi_t);
            lemma_fundamental_div_mod_converse(t - start, w, k, t - (start + k * w));
        }
        if k == (t - start) / w {
            // The quotient's bucket bounds contain the timestamp, so the
            // index lies between the bucket's index bounds.
            assert(t - start == w * k + (t - start) % w);
            assert(0 <= (t - start) % w < w);
            vstd::arithmetic::mul::lemma_mul_is_commutative(w, k);
            assert(t >= lo_t);
            assert(t < start + k * w + w);
            assert(lo_t <= t < hi_t);
            if i < lo {
                assert(s[i].0.0 < lo_t);
            }
            if i >= hi {
                assert(hi < s.len());
                assert(s[hi].0.0 >= hi_t);
                assert(s[i].0.0 >= s[hi].0.0);
            }
        }
    }
}

} // verus!
