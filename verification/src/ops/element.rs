//! Element-level aggregation operators: reduce a window of timestamped
//! elements to one sample, propagating the `Fake` taint.

use vstd::prelude::*;

use crate::element::Element;
use crate::ops::{
    delta_fits, div_trunc, max_acc, min_acc, samples_of, spec_delta, spec_has_fake, spec_max,
    spec_mean, spec_min, spec_oldest, spec_sum, spec_youngest, sum_fits, tagged, ElementOp,
};
use crate::sample::Sample;

verus! {

/// Select an operator by name from the fixed registry, or `None` for an
/// unknown name.
pub open spec fn spec_op_from_name(s: Seq<char>) -> Option<ElementOp> {
    if s == "max"@ {
        Some(ElementOp::Max)
    } else if s == "min"@ {
        Some(ElementOp::Min)
    } else if s == "sum"@ {
        Some(ElementOp::Sum)
    } else if s == "mean"@ {
        Some(ElementOp::Mean)
    } else if s == "oldest"@ {
        Some(ElementOp::Oldest)
    } else if s == "youngest"@ {
        Some(ElementOp::Youngest)
    } else if s == "delta"@ {
        Some(ElementOp::Delta)
    } else {
        None
    }
}

/// Select an operator by name: `max`, `min`, `sum`, `mean`, `oldest`,
/// `youngest` or `delta`.
pub fn from_str(op: &str) -> (r: Option<ElementOp>)
    ensures
        r == spec_op_from_name(op@),
{
    let s = op.to_owned();
    if s == "max".to_owned() {
        Some(ElementOp::Max)
    } else if s == "min".to_owned() {
        Some(ElementOp::Min)
    } else if s == "sum".to_owned() {
        Some(ElementOp::Sum)
    } else if s == "mean".to_owned() {
        Some(ElementOp::Mean)
    } else if s == "oldest".to_owned() {
        Some(ElementOp::Oldest)
    } else if s == "youngest".to_owned() {
        Some(ElementOp::Youngest)
    } else if s == "delta".to_owned() {
        Some(ElementOp::Delta)
    } else {
        None
    }
}

/// The largest value in the window, `Zero` counting as 0 and `Error` inputs
/// skipped; `Fake` if any input was `Fake`, `Error` if no input had a value.
pub fn max(values: &[Element]) -> (r: Sample)
    ensures
        r == spec_max(samples_of(values@)),
{
    let ghost ss = samples_of(values@);
    let mut best: Option<i64> = None;
    let mut has_fake: bool = false;
    let mut i: usize = 0;

    proof {
        assert(ss.take(0) =~= Seq::<Sample>::empty());
    }
    while i < values.len()
        invariant
            0 <= i as int <= ss.len(),
            ss == samples_of(values@),
            ss.len() == values@.len(),
            has_fake == max_acc(ss.take(i as int)).1,
            match best {
                Option::None => max_acc(ss.take(i as int)).0 is None,
                Option::Some(b) => max_acc(ss.take(i as int)).0 == Some(b as int),
            },
        decreases values@.len() - i,
    {
        proof {
            assert(ss.take(i as int + 1).drop_last() =~= ss.take(i as int));
            assert(ss.take(i as int + 1).last() == ss[i as int]);
        }
        match values[i].1 {
            Sample::Error => {},
            Sample::Zero => {
                best = Some(
                    match best {
                        None => 0,
                        Some(m) => if 0 > m {
                            0
                        } else {
                            m
                        },
                    },
                );
            },
            Sample::Point(v) => {
                best = Some(
                    match best {
                        None => v,
                        Some(m) => if v > m {
                            v
                        } else {
                            m
                        },
                    },
                );
            },
            Sample::Fake(v) => {
                has_fake = true;
                best = Some(
                    match best {
                        None => v,
                        Some(m) => if v > m {
                            v
                        } else {
                            m
                        },
                    },
                );
            },
        }
        i += 1;
    }
    proof {
        assert(ss.take(values@.len() as int) =~= ss);
    }
    match best {
        None => Sample::Error,
        Some(m) => if has_fake {
            Sample::Fake(m)
        } else {
            Sample::Point(m)
        },
    }
}

/// The smallest value in the window, the mirror image of `max`.
pub fn min(values: &[Element]) -> (r: Sample)
    ensures
        r == spec_min(samples_of(values@)),
{
    let ghost ss = samples_of(values@);
    let mut best: Option<i64> = None;
    let mut has_fake: bool = false;
    let mut i: usize = 0;

    proof {
        assert(ss.take(0) =~= Seq::<Sample>::empty());
    }
    while i < values.len()
        invariant
            0 <= i as int <= ss.len(),
            ss == samples_of(values@),
            ss.len() == values@.len(),
            has_fake == min_acc(ss.take(i as int)).1,
            match best {
                Option::None => min_acc(ss.take(i as int)).0 is None,
                Option::Some(b) => min_acc(ss.take(i as int)).0 == Some(b as int),
            },
        decreases values@.len() - i,
    {
        proof {
            assert(ss.take(i as int + 1).drop_last() =~= ss.take(i as int));
            assert(ss.take(i as int + 1).last() == ss[i as int]);
        }
        match values[i].1 {
            Sample::Error => {},
            Sample::Zero => {
                best = Some(
                    match best {
                        None => 0,
                        Some(m) => if 0 < m {
                            0
                        } else {
                            m
                        },
                    },
                );
            },
            Sample::Point(v) => {
                best = Some(
                    match best {
                        None => v,
                        Some(m) => if v < m {
                            v
                        } else {
                            m
                        },
                    },
                );
            },
            Sample::Fake(v) => {
                has_fake = true;
                best = Some(
                    match best {
                        None => v,
                        Some(m) => if v < m {
                            v
                        } else {
                            m
                        },
                    },
                );
            },
        }
        i += 1;
    }
    proof {
        assert(ss.take(values@.len() as int) =~= ss);
    }
    match best {
        None => Sample::Error,
        Some(m) => if has_fake {
            Sample::Fake(m)
        } else {
            Sample::Point(m)
        },
    }
}

/// The arithmetic sum of the window's values; `Point(0)` for an empty
/// window; tainted `Fake` exactly when some input is `Fake`.
pub fn sum(values: &[Element]) -> (r: Sample)
    requires
        sum_fits(samples_of(values@)),
    ensures
        r == tagged(
            spec_has_fake(samples_of(values@)),
            spec_sum(samples_of(values@)) as i64,
        ),
{
    let ghost ss = samples_of(values@);
    let mut acc: i64 = 0;
    let mut has_fake: bool = false;
    let mut i: usize = 0;

    proof {
        assert(ss.take(0) =~= Seq::<Sample>::empty());
    }
    while i < values.len()
        invariant
            0 <= i as int <= ss.len(),
            ss == samples_of(values@),
            ss.len() == values@.len(),
            sum_fits(ss),
            acc == spec_sum(ss.take(i as int)),
            has_fake == spec_has_fake(ss.take(i as int)),
        decreases values@.len() - i,
    {
        proof {
            assert(ss.take(i as int + 1).drop_last() =~= ss.take(i as int));
            assert(ss.take(i as int + 1).last() == ss[i as int]);
            assert(i64::MIN <= spec_sum(ss.take(i as int + 1)) <= i64::MAX);
        }
        if matches!(values[i].1, Sample::Fake(_)) {
            has_fake = true;
        }
        acc = acc + values[i].1.val();
        i += 1;
    }
    proof {
        assert(ss.take(values@.len() as int) =~= ss);
    }
    if has_fake {
        Sample::Fake(acc)
    } else {
        Sample::Point(acc)
    }
}

/// The mean of a non-empty window: the sum divided by the number of samples,
/// truncating toward zero; tainted `Fake` exactly when some input is `Fake`.
pub fn mean(values: &[Element]) -> (r: Sample)
    requires
        0 < values@.len() <= i64::MAX,
        sum_fits(samples_of(values@)),
    ensures
        r == spec_mean(samples_of(values@)),
{
    let summed = sum(values);
    let total = summed.val();
    let n = values.len() as i64;
    proof {
        let ss = samples_of(values@);
        assert(ss.take(ss.len() as int) =~= ss);
        assert(i64::MIN <= spec_sum(ss) <= i64::MAX);
        assert(total == spec_sum(ss));
        assert((summed is Fake) == spec_has_fake(ss));
    }
    let q: i64 = if total >= 0 {
        proof {
            vstd::arithmetic::div_mod::lemma_div_nonincreasing(total as int, n as int);
            vstd::arithmetic::div_mod::lemma_div_pos_is_pos(total as int, n as int);
        }
        (total as i128 / n as i128) as i64
    } else {
        let neg = -(total as i128);
        proof {
            vstd::arithmetic::div_mod::lemma_div_nonincreasing(neg as int, n as int);
            vstd::arithmetic::div_mod::lemma_div_pos_is_pos(neg as int, n as int);
        }
        (-(neg / n as i128)) as i64
    };
    if matches!(summed, Sample::Fake(_)) {
        Sample::Fake(q)
    } else {
        Sample::Point(q)
    }
}

/// The first sample of the window, verbatim; `Error` for an empty window.
pub fn oldest(values: &[Element]) -> (r: Sample)
    ensures
        r == spec_oldest(samples_of(values@)),
{
    if values.len() == 0 {
        Sample::Error
    } else {
        values[0].1
    }
}

/// The last sample of the window, verbatim; `Error` for an empty window.
pub fn youngest(values: &[Element]) -> (r: Sample)
    ensures
        r == spec_youngest(samples_of(values@)),
{
    if values.len() == 0 {
        Sample::Error
    } else {
        values[values.len() - 1].1
    }
}

/// The increase between exactly two values, or the last value itself when
/// the pair decreased (a counter reset); `Error` for any other arity.
pub fn delta(values: &[Element]) -> (r: Sample)
    requires
        delta_fits(samples_of(values@)),
    ensures
        r == spec_delta(samples_of(values@)),
{
    if values.len() != 2 {
        Sample::Error
    } else {
        let last = values[1].1.val();
        let prev = values[0].1.val();

        if last > prev {
            Sample::Point(last - prev)
        } else {
            Sample::Point(last)
        }
    }
}

} // verus!
