//! The aligned series: a derived time series with a fixed interval between
//! samples. The sample at position `i` stands for the bucket
//! `[start_ts + i*interval, start_ts + (i+1)*interval)`.

use vstd::arithmetic::div_mod::{
    lemma_div_pos_is_pos, lemma_fundamental_div_mod, lemma_mod_bound,
};
use vstd::arithmetic::mul::lemma_mul_inequality;
use vstd::prelude::*;

use crate::base::{Interval, TimeStamp};
use crate::element::Element;
use crate::ops::{
    op_ok, sample_op_ok, samples_of, spec_apply, spec_apply_sample, ElementOp, SampleOp,
};
use crate::raw_series::RawSeries;
use crate::sample::Sample;
use crate::window::{spec_num_windows, spec_window_elems};

verus! {

/// A configuration error: the requested build is rejected outright and no
/// partial series is returned.
#[derive(Debug, Clone, Copy, PartialEq, Eq, Structural)]
pub enum ConfigError {
    /// The requested cutoff precedes the alignment epoch.
    EndBeforeStart,
}

impl ConfigError {
    /// A human-readable description of the error.
    pub fn message(&self) -> (r: &'static str)
        ensures
            r@ == "end_ts must be greater than or equal to start_ts"@,
    {
        match self {
            ConfigError::EndBeforeStart => "end_ts must be greater than or equal to start_ts",
        }
    }
}

/// The cutoff in milliseconds, if one was given.
pub open spec fn spec_end_millis(end_ts: Option<TimeStamp>) -> Option<int> {
    match end_ts {
        Option::None => Option::None,
        Option::Some(e) => Option::Some(e.0 as int),
    }
}

/// How many buckets the bulk build keeps: every bucket, or only those whose
/// start time does not exceed the cutoff.
pub open spec fn spec_built_count(s: Seq<Element>, w: int, start: int, end: Option<int>) -> int {
    let n = spec_num_windows(s, start, w);
    match end {
        Option::None => n,
        Option::Some(e) => {
            let cut = (e - start) / w + 1;
            if n <= cut {
                n
            } else {
                cut
            }
        },
    }
}

/// The samples of the aligned series that the bulk build produces: bucket
/// `k`'s elements reduced by the operator, in bucket order.
pub open spec fn spec_aligned_values(
    s: Seq<Element>,
    w: int,
    start: int,
    end: Option<int>,
    op: ElementOp,
) -> Seq<Sample> {
    Seq::new(
        spec_built_count(s, w, start, end) as nat,
        |k: int| spec_apply(op, samples_of(spec_window_elems(s, start, w, k))),
    )
}

/// The samples produced by sliding a window of `len` consecutive samples over
/// `values`: `len - 1` neutral zero-point placeholders (so the output stays
/// index-aligned with the input), then one reduced sample per window.
pub open spec fn spec_sliding(values: Seq<Sample>, len: int, op: SampleOp) -> Seq<Sample> {
    let pad = Seq::new((len - 1) as nat, |i: int| Sample::Point(0));
    if len > values.len() {
        pad
    } else {
        pad + Seq::new(
            (values.len() - len + 1) as nat,
            |i: int| spec_apply_sample(op, values.subrange(i, i + len)),
        )
    }
}

/// The start time of bucket `k` does not exceed the cutoff exactly when `k`
/// is below the cutoff's bucket count.
proof fn lemma_cutoff(e: int, start: int, w: int, k: int)
    requires
        w > 0,
        start <= e,
        0 <= k,
    ensures
        (start + k * w <= e) <==> (k <= (e - start) / w),
{
    let q = (e - start) / w;
    lemma_fundamental_div_mod(e - start, w);
    lemma_mod_bound(e - start, w);
    vstd::arithmetic::mul::lemma_mul_is_commutative(w, q);
    if k <= q {
        lemma_mul_inequality(k, q, w);
    }
    if k > q {
        lemma_mul_inequality(q + 1, k, w);
        assert((q + 1) * w == q * w + w) by (nonlinear_arith);
    }
}

/// Alignment round-trip law: over densely packed raw data (one sample per
/// millisecond, starting exactly at the epoch and filling whole buckets),
/// aggregating with the `youngest` policy reproduces exactly the last raw
/// sample of each bucket: bucket `k` reduces to the sample at raw index
/// `(k+1)*w - 1`.
pub proof fn lemma_youngest_roundtrip(s: Seq<Element>, start: int, w: int)
    requires
        w > 0,
        s.len() > 0,
        s.len() as int % w == 0,
        forall|i: int| 0 <= i < s.len() ==> (#[trigger] s[i]).0.0 == start + i,
    ensures
        spec_num_windows(s, start, w) == (s.len() - 1) / w + 1,
        forall|k: int|
            0 <= k < spec_num_windows(s, start, w) ==> spec_apply(
                ElementOp::Youngest,
                samples_of(#[trigger] spec_window_elems(s, start, w, k)),
            ) == s[(k + 1) * w - 1].1,
{
    let n = s.len() as int;
    let q0 = n / w;
    assert(s.last().0.0 == start + n - 1);
    lemma_fundamental_div_mod(n, w);
    lemma_mod_bound(n, w);
    vstd::arithmetic::mul::lemma_mul_is_commutative(w, q0);
    assert(n == q0 * w);
    assert((q0 - 1) * w == q0 * w - w) by (nonlinear_arith);
    vstd::arithmetic::div_mod::lemma_fundamental_div_mod_converse(n - 1, w, q0 - 1, w - 1);
    assert((n - 1) / w == q0 - 1);

    assert forall|k: int| 0 <= k < spec_num_windows(s, start, w) implies spec_apply(
        ElementOp::Youngest,
        samples_of(#[trigger] spec_window_elems(s, start, w, k)),
    ) == s[(k + 1) * w - 1].1 by {
        assert((k + 1) * w == k * w + w) by (nonlinear_arith);
        lemma_mul_inequality(k + 1, q0, w);
        vstd::arithmetic::mul::lemma_mul_nonnegative(k, w);
        let lo = k * w;
        let hi = (k + 1) * w;
        assert(0 <= lo && hi <= q0 * w);
        crate::element::lemma_first_ts_geq_char(s, crate::window::win_lo(start, w, k), lo);
        crate::element::lemma_first_ts_geq_char(s, crate::window::win_lo(start, w, k + 1), hi);
        let elems = spec_window_elems(s, start, w, k);
        assert(elems =~= s.subrange(lo, hi));
        assert(elems.len() == w);
        assert(samples_of(elems).len() == w);
        assert(samples_of(elems).last() == elems.last().1);
        assert(elems.last() == s[hi - 1]);
    }
}

/// `AlignedSeries` represents a time series with a fixed, strictly positive
/// interval between samples.
#[derive(Debug, Clone)]
pub struct AlignedSeries {
    pub start_ts: TimeStamp,
    pub interval: Interval,
    pub values: Vec<Sample>,
}

impl AlignedSeries {
    /// The series' interval is strictly positive.
    pub open spec fn wf(&self) -> bool {
        self.interval.0 > 0
    }

    /// Create a new empty series anchored at the given epoch.
    pub fn new(interval: Interval, start_ts: TimeStamp) -> (r: AlignedSeries)
        requires
            interval.0 > 0,
        ensures
            r.interval == interval,
            r.start_ts == start_ts,
            r.values@ == Seq::<Sample>::empty(),
            r.wf(),
    {
        AlignedSeries { interval, start_ts, values: Vec::new() }
    }

    /// Create a new aligned series from a raw series: aggregate each
    /// epoch-aligned bucket of width `interval` with `op`, in bucket order,
    /// stopping once a bucket's start time exceeds `end_ts` (when given).
    /// Fails, returning no series, exactly when `end_ts` precedes `start_ts`.
    #[verifier::loop_isolation(false)]
    pub fn from_raw_series(
        series: &RawSeries,
        interval: Interval,
        start_ts: TimeStamp,
        end_ts: Option<TimeStamp>,
        op: ElementOp,
    ) -> (r: Result<AlignedSeries, ConfigError>)
        requires
            series.wf(),
            interval.0 > 0,
            !(end_ts is Some && end_ts->Some_0.0 < start_ts.0) ==> spec_num_windows(
                series@,
                start_ts.0 as int,
                interval.0 as int,
            ) <= usize::MAX,
            !(end_ts is Some && end_ts->Some_0.0 < start_ts.0) ==> forall|k: int|
                0 <= k < spec_built_count(
                    series@,
                    interval.0 as int,
                    start_ts.0 as int,
                    spec_end_millis(end_ts),
                ) ==> op_ok(
                    op,
                    samples_of(
                        #[trigger] spec_window_elems(
                            series@,
                            start_ts.0 as int,
                            interval.0 as int,
                            k,
                        ),
                    ),
                ),
        ensures
            r is Err <==> (end_ts is Some && end_ts->Some_0.0 < start_ts.0),
            r is Err ==> r == Err::<AlignedSeries, ConfigError>(ConfigError::EndBeforeStart),
            r is Ok ==> ({
                let a = r->Ok_0;
                &&& a.start_ts == start_ts
                &&& a.interval == interval
                &&& a.wf()
                &&& a.values@ == spec_aligned_values(
                    series@,
                    interval.0 as int,
                    start_ts.0 as int,
                    spec_end_millis(end_ts),
                    op,
                )
            }),
    {
        if let Some(e) = end_ts {
            if e.0 < start_ts.0 {
                return Err(ConfigError::EndBeforeStart);
            }
        }

        let ghost sq = series@;
        let ghost start_i = start_ts.0 as int;
        let ghost w_i = interval.0 as int;
        let ghost end_i = spec_end_millis(end_ts);
        let ghost built = spec_built_count(sq, w_i, start_i, end_i);

        let mut aligned_series = AlignedSeries::new(interval, start_ts);
        let mut aggs = series.windows(interval, start_ts).samples().aggregate(op);
        let num = aggs.iter.iter.num_windows;

        // The number of buckets to keep: all of them, or only those whose
        // start time does not exceed the cutoff.
        let built: usize = match end_ts {
            None => num,
            Some(e) => {
                proof {
                    lemma_div_pos_is_pos(e.0 - start_ts.0 as int, w_i);
                }
                let cut = (e.0 as i128 - start_ts.0 as i128) / (interval.0 as i128) + 1;
                if num as i128 <= cut {
                    num
                } else {
                    cut as usize
                }
            },
        };

        proof {
            assert(built as int == spec_built_count(sq, w_i, start_i, end_i));
            assert(aligned_series.values@ =~= spec_aligned_values(
                sq,
                w_i,
                start_i,
                end_i,
                op,
            ).take(0));
        }

        let mut k: usize = 0;
        while k < built
            invariant
                aggs.f == op,
                aggs.iter.iter.wf(),
                aggs.iter.iter.series@ == sq,
                aggs.iter.iter.window_size == interval,
                aggs.iter.iter.start_ts == start_ts,
                aggs.iter.iter.current_window == k,
                aggs.iter.iter.num_windows == spec_num_windows(sq, start_i, w_i),
                0 <= k <= built,
                aligned_series.wf(),
                aligned_series.start_ts == start_ts,
                aligned_series.interval == interval,
                aligned_series.values@ == spec_aligned_values(sq, w_i, start_i, end_i, op).take(
                    k as int,
                ),
            decreases built - k,
        {
            let s = aggs.next().unwrap();
            aligned_series.push_sample(s);
            proof {
                assert(aligned_series.values@ =~= spec_aligned_values(
                    sq,
                    w_i,
                    start_i,
                    end_i,
                    op,
                ).take(k as int + 1));
            }
            k = k + 1;
        }
        proof {
            assert(aligned_series.values@ =~= spec_aligned_values(sq, w_i, start_i, end_i, op));
        }

        Ok(aligned_series)
    }

    /// Add a new value to the series.
    pub fn push(&mut self, value: i64)
        ensures
            final(self).values@ == old(self).values@.push(Sample::Point(value)),
            final(self).start_ts == old(self).start_ts,
            final(self).interval == old(self).interval,
    {
        self.push_sample(Sample::point(value));
    }

    /// Add a new sample to the series.
    pub fn push_sample(&mut self, sample: Sample)
        ensures
            final(self).values@ == old(self).values@.push(sample),
            final(self).start_ts == old(self).start_ts,
            final(self).interval == old(self).interval,
    {
        self.values.push(sample);
    }

    /// Returns the number of samples in the series.
    pub fn len(&self) -> (r: usize)
        ensures
            r == self.values@.len(),
    {
        self.values.len()
    }

    /// Returns true if the series is empty.
    pub fn is_empty(&self) -> (r: bool)
        ensures
            r == (self.values@.len() == 0),
    {
        self.values.len() == 0
    }

    /// Slide a window of `len` consecutive samples one step at a time over
    /// the series and reduce each window with `op`. The first `len - 1`
    /// output positions are neutral zero-point placeholders, keeping the
    /// output index-aligned with the input.
    #[verifier::loop_isolation(false)]
    pub fn sliding_window(&self, len: usize, op: SampleOp) -> (r: Result<
        AlignedSeries,
        ConfigError,
    >)
        requires
            self.wf(),
            len >= 1,
            forall|i: int|
                0 <= i <= self.values@.len() - len ==> sample_op_ok(
                    op,
                    #[trigger] self.values@.subrange(i, i + len),
                ),
        ensures
            r is Ok,
            ({
                let a = r->Ok_0;
                &&& a.start_ts == self.start_ts
                &&& a.interval == self.interval
                &&& a.wf()
                &&& a.values@ == spec_sliding(self.values@, len as int, op)
            }),
    {
        let ghost vals = self.values@;
        let ghost pad = Seq::new((len - 1) as nat, |i: int| Sample::Point(0));

        let mut new_series = AlignedSeries::new(self.interval, self.start_ts);

        let mut i: usize = 0;
        proof {
            assert(new_series.values@ =~= pad.take(0));
        }
        while i < len - 1
            invariant
                0 <= i <= len - 1,
                new_series.wf(),
                new_series.start_ts == self.start_ts,
                new_series.interval == self.interval,
                new_series.values@ == pad.take(i as int),
            decreases len - 1 - i,
        {
            new_series.push_sample(Sample::point(0));
            proof {
                assert(new_series.values@ =~= pad.take(i as int + 1));
            }
            i += 1;
        }
        proof {
            assert(pad.take(len - 1 as int) =~= pad);
        }

        if len > self.values.len() {
            return Ok(new_series);
        }

        let n = self.values.len();
        let ghost outs = Seq::new(
            (vals.len() - len + 1) as nat,
            |i: int| spec_apply_sample(op, vals.subrange(i, i + len)),
        );

        let mut start: usize = 0;
        proof {
            assert(new_series.values@ =~= pad + outs.take(0));
        }
        while start <= n - len
            invariant
                0 <= start <= n - len + 1,
                new_series.wf(),
                new_series.start_ts == self.start_ts,
                new_series.interval == self.interval,
                new_series.values@ == pad + outs.take(start as int),
            decreases n - len + 1 - start,
        {
            let mut win: Vec<Sample> = Vec::new();
            let mut j: usize = start;
            proof {
                assert(win@ =~= vals.subrange(start as int, start as int));
            }
            while j < start + len
                invariant
                    start <= j <= start + len,
                    start + len <= n,
                    win@ == vals.subrange(start as int, j as int),
                decreases start + len - j,
            {
                proof {
                    let sub = vals.subrange(start as int, j as int);
                    assert(vals.subrange(start as int, j as int + 1) =~= sub.push(
                        vals[j as int],
                    ));
                }
                win.push(self.values[j]);
                j += 1;
            }

            let s = op.apply(win.as_slice());
            new_series.push_sample(s);
            proof {
                assert(new_series.values@ =~= pad + outs.take(start as int + 1));
            }
            start += 1;
        }
        proof {
            assert(outs.take((n - len + 1) as int) =~= outs);
        }

        Ok(new_series)
    }

    /// Get the nearest sample at or after the given timestamp. A timestamp
    /// at or before the epoch answers with the first sample; one exactly on
    /// a bucket boundary answers with that bucket; any other answers with
    /// the next bucket, honoring "at or after". `None` past the end.
    pub fn at_or_after(&self, ts: TimeStamp) -> (r: Option<Element>)
        requires
            self.wf(),
            self.values@.len() == 0 || self.start_ts.0 + (self.values@.len() - 1)
                * self.interval.0 <= i64::MAX,
        ensures
            ({
                let start = self.start_ts.0 as int;
                let w = self.interval.0 as int;
                let vals = self.values@;
                if ts.0 <= start {
                    if vals.len() == 0 {
                        r is None
                    } else {
                        r == Some(Element(self.start_ts, vals[0]))
                    }
                } else {
                    let d = ts.0 - start;
                    if d % w == 0 {
                        let idx = d / w;
                        if idx < vals.len() {
                            r == Some(Element(ts, vals[idx]))
                        } else {
                            r is None
                        }
                    } else {
                        let idx = d / w + 1;
                        if idx < vals.len() {
                            r == Some(Element(TimeStamp((start + idx * w) as i64), vals[idx]))
                        } else {
                            r is None
                        }
                    }
                }
            }),
    {
        if ts.0 <= self.start_ts.0 {
            if self.values.len() == 0 {
                return None;
            }
            return Some(Element(self.start_ts, self.values[0]));
        }

        let d: i128 = ts.0 as i128 - self.start_ts.0 as i128;
        let w: i128 = self.interval.0 as i128;
        let n: i128 = self.values.len() as i128;

        if d % w == 0 {
            let q = d / w;
            proof {
                lemma_div_pos_is_pos(d as int, w as int);
            }
            if q < n {
                let idx = q as usize;
                Some(Element(ts, self.values[idx]))
            } else {
                None
            }
        } else {
            let q = d / w + 1;
            proof {
                lemma_div_pos_is_pos(d as int, w as int);
            }
            if q < n {
                let idx = q as usize;
                proof {
                    lemma_mul_inequality(q as int, self.values@.len() - 1, self.interval.0 as int);
                    vstd::arithmetic::mul::lemma_mul_is_commutative(
                        q as int,
                        self.interval.0 as int,
                    );
                    vstd::arithmetic::mul::lemma_mul_is_commutative(
                        self.values@.len() - 1,
                        self.interval.0 as int,
                    );
                    vstd::arithmetic::mul::lemma_mul_nonnegative(q as int, self.interval.0 as int);
                }
                let out_ts: i64 = (self.start_ts.0 as i128 + q * w) as i64;
                Some(Element(TimeStamp(out_ts), self.values[idx]))
            } else {
                None
            }
        }
    }
}

} // verus!
