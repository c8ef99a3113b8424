//! Aggregation operators: pure functions reducing a window of samples to one
//! output sample, together with the specification of their exact semantics.
//!
//! The operator set is closed, so operators are a bounded enumeration
//! ([`ElementOp`], [`SampleOp`]) rather than open-ended dynamic dispatch.

pub mod element;
pub mod sample;

use vstd::prelude::*;

use crate::element::Element;
use crate::sample::Sample;

verus! {

/// An aggregation operator over a window of timestamped elements.
#[derive(Clone, Copy, Debug, PartialEq, Eq, Structural)]
pub enum ElementOp {
    Max,
    Min,
    Sum,
    Mean,
    Oldest,
    Youngest,
    Delta,
}

/// An aggregation operator over a window of plain samples (no timestamps),
/// used to re-aggregate an already-aligned series.
#[derive(Clone, Copy, Debug, PartialEq, Eq, Structural)]
pub enum SampleOp {
    Delta,
}

/// The samples of a window, with the timestamps dropped.
pub open spec fn samples_of(s: Seq<Element>) -> Seq<Sample> {
    s.map_values(|e: Element| e.1)
}

/// Running maximum over the samples seen so far: the extremal value (if any
/// non-error sample was seen, with `Zero` counting as 0) and whether any
/// `Fake` sample was seen.
pub open spec fn max_acc(s: Seq<Sample>) -> (Option<int>, bool)
    decreases s.len(),
{
    if s.len() == 0 {
        (None, false)
    } else {
        max_step(max_acc(s.drop_last()), s.last())
    }
}

pub open spec fn max_step(acc: (Option<int>, bool), x: Sample) -> (Option<int>, bool) {
    match x {
        Sample::Error => acc,
        Sample::Zero => (Some(upper_of(acc.0, 0)), acc.1),
        Sample::Point(v) => (Some(upper_of(acc.0, v as int)), acc.1),
        Sample::Fake(v) => (Some(upper_of(acc.0, v as int)), true),
    }
}

pub open spec fn upper_of(b: Option<int>, v: int) -> int {
    match b {
        Option::None => v,
        Option::Some(m) => if v > m {
            v
        } else {
            m
        },
    }
}

/// Running minimum, the mirror image of `max_acc`.
pub open spec fn min_acc(s: Seq<Sample>) -> (Option<int>, bool)
    decreases s.len(),
{
    if s.len() == 0 {
        (None, false)
    } else {
        min_step(min_acc(s.drop_last()), s.last())
    }
}

pub open spec fn min_step(acc: (Option<int>, bool), x: Sample) -> (Option<int>, bool) {
    match x {
        Sample::Error => acc,
        Sample::Zero => (Some(lower_of(acc.0, 0)), acc.1),
        Sample::Point(v) => (Some(lower_of(acc.0, v as int)), acc.1),
        Sample::Fake(v) => (Some(lower_of(acc.0, v as int)), true),
    }
}

pub open spec fn lower_of(b: Option<int>, v: int) -> int {
    match b {
        Option::None => v,
        Option::Some(m) => if v < m {
            v
        } else {
            m
        },
    }
}

/// `max` of a window: `Error` when no non-error sample exists; otherwise the
/// largest value among the non-error samples (`Zero` counting as 0), tainted
/// `Fake` exactly when some input is `Fake`.
pub open spec fn spec_max(s: Seq<Sample>) -> Sample {
    match max_acc(s).0 {
        Option::None => Sample::Error,
        Option::Some(m) => if max_acc(s).1 {
            Sample::Fake(m as i64)
        } else {
            Sample::Point(m as i64)
        },
    }
}

/// `min` of a window, the mirror image of `spec_max`.
pub open spec fn spec_min(s: Seq<Sample>) -> Sample {
    match min_acc(s).0 {
        Option::None => Sample::Error,
        Option::Some(m) => if min_acc(s).1 {
            Sample::Fake(m as i64)
        } else {
            Sample::Point(m as i64)
        },
    }
}

/// The arithmetic sum of the window's values (`Zero` and `Error` contribute
/// 0), as an unbounded integer.
pub open spec fn spec_sum(s: Seq<Sample>) -> int
    decreases s.len(),
{
    if s.len() == 0 {
        0
    } else {
        spec_sum(s.drop_last()) + s.last().spec_val()
    }
}

/// Every prefix sum of the window stays within the `i64` range, so the
/// accumulating sum can be computed without overflow.
pub open spec fn sum_fits(s: Seq<Sample>) -> bool {
    forall|k: int| 0 <= k <= s.len() ==> i64::MIN <= spec_sum(#[trigger] s.take(k)) <= i64::MAX
}

/// The window holds at least one extrapolated (`Fake`) sample, whose taint
/// the window's aggregate must carry.
pub open spec fn spec_has_fake(s: Seq<Sample>) -> bool
    decreases s.len(),
{
    if s.len() == 0 {
        false
    } else {
        spec_has_fake(s.drop_last()) || s.last() is Fake
    }
}

/// A computed value, tagged `Fake` when some input carried the taint.
pub open spec fn tagged(fake: bool, v: i64) -> Sample {
    if fake {
        Sample::Fake(v)
    } else {
        Sample::Point(v)
    }
}

/// Division truncating toward zero, as the `/` operator of the executable
/// code computes it.
pub open spec fn div_trunc(a: int, b: int) -> int {
    if a >= 0 {
        a / b
    } else {
        -((-a) / b)
    }
}

/// `mean` of a non-empty window: the sum divided by the number of samples,
/// tainted `Fake` exactly when some input is `Fake`.
pub open spec fn spec_mean(s: Seq<Sample>) -> Sample {
    tagged(spec_has_fake(s), div_trunc(spec_sum(s), s.len() as int) as i64)
}

/// `oldest`: the first sample verbatim; `Error` for an empty window.
pub open spec fn spec_oldest(s: Seq<Sample>) -> Sample {
    if s.len() == 0 {
        Sample::Error
    } else {
        s[0]
    }
}

/// `youngest`: the last sample verbatim; `Error` for an empty window.
pub open spec fn spec_youngest(s: Seq<Sample>) -> Sample {
    if s.len() == 0 {
        Sample::Error
    } else {
        s.last()
    }
}

/// `delta` of exactly two samples, read as (previous, last): the increase
/// `last - prev` when the value grew, else `last` itself as a conservative
/// stand-in for a counter that reset. Any other window length is `Error`.
pub open spec fn spec_delta(s: Seq<Sample>) -> Sample {
    if s.len() != 2 {
        Sample::Error
    } else {
        let prev = s[0].spec_val();
        let last = s[1].spec_val();
        if last > prev {
            Sample::Point((last - prev) as i64)
        } else {
            Sample::Point(last)
        }
    }
}

/// The subtraction done by `delta` stays within the `i64` range.
pub open spec fn delta_fits(s: Seq<Sample>) -> bool {
    s.len() == 2 && s[1].spec_val() > s[0].spec_val() ==> s[1].spec_val() - s[0].spec_val()
        <= i64::MAX
}

/// What an element-level operator returns on a window.
pub open spec fn spec_apply(op: ElementOp, s: Seq<Sample>) -> Sample {
    match op {
        ElementOp::Max => spec_max(s),
        ElementOp::Min => spec_min(s),
        ElementOp::Sum => tagged(spec_has_fake(s), spec_sum(s) as i64),
        ElementOp::Mean => spec_mean(s),
        ElementOp::Oldest => spec_oldest(s),
        ElementOp::Youngest => spec_youngest(s),
        ElementOp::Delta => spec_delta(s),
    }
}

/// The operator's arithmetic stays in range on this window, and the window
/// meets the operator's arity demands (`mean` needs a non-empty window).
pub open spec fn op_ok(op: ElementOp, s: Seq<Sample>) -> bool {
    match op {
        ElementOp::Sum => sum_fits(s),
        ElementOp::Mean => 0 < s.len() <= i64::MAX && sum_fits(s),
        ElementOp::Delta => delta_fits(s),
        _ => true,
    }
}

/// What a sample-level operator returns on a window.
pub open spec fn spec_apply_sample(op: SampleOp, s: Seq<Sample>) -> Sample {
    match op {
        SampleOp::Delta => spec_delta(s),
    }
}

/// The sample-level operator's arithmetic stays in range on this window.
pub open spec fn sample_op_ok(op: SampleOp, s: Seq<Sample>) -> bool {
    match op {
        SampleOp::Delta => delta_fits(s),
    }
}

impl ElementOp {
    /// Reduce one window of elements with this operator.
    pub fn apply(self, values: &[Element]) -> (r: Sample)
        requires
            op_ok(self, samples_of(values@)),
        ensures
            r == spec_apply(self, samples_of(values@)),
    {
        match self {
            ElementOp::Max => element::max(values),
            ElementOp::Min => element::min(values),
            ElementOp::Sum => element::sum(values),
            ElementOp::Mean => element::mean(values),
            ElementOp::Oldest => element::oldest(values),
            ElementOp::Youngest => element::youngest(values),
            ElementOp::Delta => element::delta(values),
        }
    }
}

impl SampleOp {
    /// Reduce one window of samples with this operator.
    pub fn apply(self, values: &[Sample]) -> (r: Sample)
        requires
            sample_op_ok(self, values@),
        ensures
            r == spec_apply_sample(self, values@),
    {
        match self {
            SampleOp::Delta => sample::delta(values),
        }
    }
}

proof fn lemma_max_acc_bounds(s: Seq<Sample>)
    ensures
        (max_acc(s).0 is Some) <==> (exists|i: int| 0 <= i < s.len() && !(s[i] is Error)),
        (max_acc(s).1 <==> (exists|i: int| 0 <= i < s.len() && s[i] is Fake)),
        max_acc(s).0 is Some ==> ({
            let m = max_acc(s).0->Some_0;
            &&& i64::MIN <= m <= i64::MAX
            &&& exists|i: int| 0 <= i < s.len() && !(s[i] is Error) && s[i].spec_val() == m
            &&& forall|i: int| 0 <= i < s.len() && !(s[i] is Error) ==> s[i].spec_val() <= m
        }),
    decreases s.len(),
{
    if s.len() > 0 {
        let pre = s.drop_last();
        lemma_max_acc_bounds(pre);
        let x = s.last();
        assert(forall|i: int| 0 <= i < pre.len() ==> pre[i] == s[i]);
        assert(x == s[s.len() - 1]);

        // Carry the prefix's witnesses over to the whole sequence.
        if max_acc(pre).0 is Some {
            let m0 = max_acc(pre).0->Some_0;
            let i = choose|i: int|
                0 <= i < pre.len() && !(pre[i] is Error) && pre[i].spec_val() == m0;
            assert(0 <= i < s.len() && !(s[i] is Error) && s[i].spec_val() == m0);
        }
        if max_acc(pre).1 {
            let i = choose|i: int| 0 <= i < pre.len() && pre[i] is Fake;
            assert(0 <= i < s.len() && s[i] is Fake);
        }
        // And the whole sequence's witnesses back to the prefix or the last
        // element.
        if x is Error {
            if exists|i: int| 0 <= i < s.len() && !(s[i] is Error) {
                let i = choose|i: int| 0 <= i < s.len() && !(s[i] is Error);
                assert(0 <= i < pre.len() && !(pre[i] is Error));
            }
            if exists|i: int| 0 <= i < s.len() && s[i] is Fake {
                let i = choose|i: int| 0 <= i < s.len() && s[i] is Fake;
                assert(0 <= i < pre.len() && pre[i] is Fake);
            }
        } else {
            let v = x.spec_val() as int;
            let m = max_acc(s).0->Some_0;
            if max_acc(pre).0 is Some && v <= max_acc(pre).0->Some_0 {
                assert(m == max_acc(pre).0->Some_0);
            } else {
                assert(m == v);
                assert(!(s[s.len() - 1] is Error) && s[s.len() - 1].spec_val() == m);
            }
            if !(x is Fake) && exists|i: int| 0 <= i < s.len() && s[i] is Fake {
                let i = choose|i: int| 0 <= i < s.len() && s[i] is Fake;
                assert(0 <= i < pre.len() && pre[i] is Fake);
            }
        }
    }
}

proof fn lemma_min_acc_bounds(s: Seq<Sample>)
    ensures
        (min_acc(s).0 is Some) <==> (exists|i: int| 0 <= i < s.len() && !(s[i] is Error)),
        (min_acc(s).1 <==> (exists|i: int| 0 <= i < s.len() && s[i] is Fake)),
        min_acc(s).0 is Some ==> ({
            let m = min_acc(s).0->Some_0;
            &&& i64::MIN <= m <= i64::MAX
            &&& exists|i: int| 0 <= i < s.len() && !(s[i] is Error) && s[i].spec_val() == m
            &&& forall|i: int| 0 <= i < s.len() && !(s[i] is Error) ==> s[i].spec_val() >= m
        }),
    decreases s.len(),
{
    if s.len() > 0 {
        let pre = s.drop_last();
        lemma_min_acc_bounds(pre);
        let x = s.last();
        assert(forall|i: int| 0 <= i < pre.len() ==> pre[i] == s[i]);
        assert(x == s[s.len() - 1]);

        if min_acc(pre).0 is Some {
            let m0 = min_acc(pre).0->Some_0;
            let i = choose|i: int|
                0 <= i < pre.len() && !(pre[i] is Error) && pre[i].spec_val() == m0;
            assert(0 <= i < s.len() && !(s[i] is Error) && s[i].spec_val() == m0);
        }
        if min_acc(pre).1 {
            let i = choose|i: int| 0 <= i < pre.len() && pre[i] is Fake;
            assert(0 <= i < s.len() && s[i] is Fake);
        }
        if x is Error {
            if exists|i: int| 0 <= i < s.len() && !(s[i] is Error) {
                let i = choose|i: int| 0 <= i < s.len() && !(s[i] is Error);
                assert(0 <= i < pre.len() && !(pre[i] is Error));
            }
            if exists|i: int| 0 <= i < s.len() && s[i] is Fake {
                let i = choose|i: int| 0 <= i < s.len() && s[i] is Fake;
                assert(0 <= i < pre.len() && pre[i] is Fake);
            }
        } else {
            let v = x.spec_val() as int;
            let m = min_acc(s).0->Some_0;
            if min_acc(pre).0 is Some && v >= min_acc(pre).0->Some_0 {
                assert(m == min_acc(pre).0->Some_0);
            } else {
                assert(m == v);
                assert(!(s[s.len() - 1] is Error) && s[s.len() - 1].spec_val() == m);
            }
            if !(x is Fake) && exists|i: int| 0 <= i < s.len() && s[i] is Fake {
                let i = choose|i: int| 0 <= i < s.len() && s[i] is Fake;
                assert(0 <= i < pre.len() && pre[i] is Fake);
            }
        }
    }
}

/// Bounds law for `max` and `min`: the result is an error exactly when no
/// sample carries a value; otherwise each returns a value attained by some
/// valued sample of the window (`Zero` counting as 0) that bounds every
/// valued sample from above (for `max`) or below (for `min`). Each result is
/// `Fake` exactly when some input is `Fake`: the taint is never dropped and
/// never invented.
pub proof fn lemma_max_min_bounds(s: Seq<Sample>)
    ensures
        (spec_max(s) is Error) <==> !(exists|i: int| 0 <= i < s.len() && !(s[i] is Error)),
        (spec_min(s) is Error) <==> !(exists|i: int| 0 <= i < s.len() && !(s[i] is Error)),
        !(spec_max(s) is Error) ==> ({
            let m = spec_max(s).spec_val();
            &&& (exists|i: int| 0 <= i < s.len() && !(s[i] is Error) && s[i].spec_val() == m)
            &&& (forall|i: int| 0 <= i < s.len() && !(s[i] is Error) ==> s[i].spec_val() <= m)
            &&& ((spec_max(s) is Fake) <==> exists|i: int| 0 <= i < s.len() && s[i] is Fake)
        }),
        !(spec_min(s) is Error) ==> ({
            let m = spec_min(s).spec_val();
            &&& (exists|i: int| 0 <= i < s.len() && !(s[i] is Error) && s[i].spec_val() == m)
            &&& (forall|i: int| 0 <= i < s.len() && !(s[i] is Error) ==> s[i].spec_val() >= m)
            &&& ((spec_min(s) is Fake) <==> exists|i: int| 0 <= i < s.len() && s[i] is Fake)
        }),
{
    lemma_max_acc_bounds(s);
    lemma_min_acc_bounds(s);
}

/// Aggregation identity law: `sum` and `mean` of a single-sample window both
/// return exactly that sample's value, as a real point unless the one input
/// carried the `Fake` taint.
pub proof fn lemma_single_sample_identity(x: Sample)
    ensures
        spec_apply(ElementOp::Sum, seq![x]) == tagged(x is Fake, x.spec_val()),
        spec_apply(ElementOp::Mean, seq![x]) == tagged(x is Fake, x.spec_val()),
{
    let s = seq![x];
    assert(s.drop_last() =~= Seq::<Sample>::empty());
    assert(spec_sum(Seq::<Sample>::empty()) == 0);
    assert(!spec_has_fake(Seq::<Sample>::empty()));
    assert(s.last() == x);
    assert(spec_sum(s) == x.spec_val() as int);
    assert(spec_has_fake(s) == (x is Fake));
    vstd::arithmetic::div_mod::lemma_div_basics(x.spec_val() as int);
    vstd::arithmetic::div_mod::lemma_div_basics(-(x.spec_val() as int));
    assert(div_trunc(x.spec_val() as int, 1) == x.spec_val() as int);
}

/// Reduce a window to its largest value; see `spec_max`.
pub fn max(values: &[Element]) -> (r: Sample)
    ensures
        r == spec_max(samples_of(values@)),
{
    element::max(values)
}

/// Reduce a window to its smallest value; see `spec_min`.
pub fn min(values: &[Element]) -> (r: Sample)
    ensures
        r == spec_min(samples_of(values@)),
{
    element::min(values)
}

/// Reduce a window to the sum of its values, tainted `Fake` exactly when
/// some input is `Fake`.
pub fn sum(values: &[Element]) -> (r: Sample)
    requires
        sum_fits(samples_of(values@)),
    ensures
        r == tagged(
            spec_has_fake(samples_of(values@)),
            spec_sum(samples_of(values@)) as i64,
        ),
{
    element::sum(values)
}

/// Reduce a non-empty window to the mean of its values.
pub fn mean(values: &[Element]) -> (r: Sample)
    requires
        0 < values@.len() <= i64::MAX,
        sum_fits(samples_of(values@)),
    ensures
        r == spec_mean(samples_of(values@)),
{
    element::mean(values)
}

/// Reduce a window to its first sample.
pub fn oldest(values: &[Element]) -> (r: Sample)
    ensures
        r == spec_oldest(samples_of(values@)),
{
    element::oldest(values)
}

/// Reduce a window to its last sample.
pub fn youngest(values: &[Element]) -> (r: Sample)
    ensures
        r == spec_youngest(samples_of(values@)),
{
    element::youngest(values)
}

} // verus!
