//! Aggregation over plain scalars, without sample tagging: reduce a window
//! of raw values to one value.

use vstd::prelude::*;

use crate::ops::div_trunc;

verus! {

/// The running maximum of the values, starting from 0: the largest value, or
/// 0 if no value exceeds it (in particular for an empty window).
pub open spec fn plain_max(s: Seq<i64>) -> int
    decreases s.len(),
{
    if s.len() == 0 {
        0
    } else {
        let m = plain_max(s.drop_last());
        if s.last() > m {
            s.last() as int
        } else {
            m
        }
    }
}

/// The smallest value of the window, or 0 for an empty window.
pub open spec fn plain_min(s: Seq<i64>) -> int
    decreases s.len(),
{
    if s.len() == 0 {
        0
    } else if s.len() == 1 {
        s[0] as int
    } else {
        let m = plain_min(s.drop_last());
        if s.last() < m {
            s.last() as int
        } else {
            m
        }
    }
}

/// The arithmetic sum of the values, as an unbounded integer.
pub open spec fn plain_sum(s: Seq<i64>) -> int
    decreases s.len(),
{
    if s.len() == 0 {
        0
    } else {
        plain_sum(s.drop_last()) + s.last()
    }
}

/// Every prefix sum stays within the `i64` range, so the accumulating sum
/// can be computed without overflow.
pub open spec fn plain_sum_fits(s: Seq<i64>) -> bool {
    forall|k: int| 0 <= k <= s.len() ==> i64::MIN <= plain_sum(#[trigger] s.take(k)) <= i64::MAX
}

/// The mean of the values, truncating toward zero; 0 for an empty window.
pub open spec fn plain_mean(s: Seq<i64>) -> int {
    if s.len() == 0 {
        0
    } else {
        div_trunc(plain_sum(s), s.len() as int)
    }
}

/// The largest value of the window, or 0 if no value exceeds 0.
pub fn max(values: &[i64]) -> (r: i64)
    ensures
        r == plain_max(values@),
{
    let mut m: i64 = 0;
    let mut i: usize = 0;

    proof {
        assert(values@.take(0) =~= Seq::<i64>::empty());
    }
    while i < values.len()
        invariant
            0 <= i <= values@.len(),
            m == plain_max(values@.take(i as int)),
        decreases values@.len() - i,
    {
        proof {
            assert(values@.take(i as int + 1).drop_last() =~= values@.take(i as int));
        }
        let val = values[i];
        if val > m {
            m = val;
        }
        i += 1;
    }
    proof {
        assert(values@.take(values@.len() as int) =~= values@);
    }
    m
}

/// The smallest value of the window, or 0 for an empty window.
pub fn min(values: &[i64]) -> (r: i64)
    ensures
        r == plain_min(values@),
{
    if values.len() == 0 {
        return 0;
    }

    let mut m: i64 = values[0];
    let mut i: usize = 1;

    proof {
        assert(values@.take(1) =~= seq![values@[0]]);
    }
    while i < values.len()
        invariant
            1 <= i <= values@.len(),
            m == plain_min(values@.take(i as int)),
        decreases values@.len() - i,
    {
        proof {
            assert(values@.take(i as int + 1).drop_last() =~= values@.take(i as int));
        }
        let val = values[i];
        if val < m {
            m = val;
        }
        i += 1;
    }
    proof {
        assert(values@.take(values@.len() as int) =~= values@);
    }
    m
}

/// The arithmetic sum of the values; 0 for an empty window.
pub fn sum(values: &[i64]) -> (r: i64)
    requires
        plain_sum_fits(values@),
    ensures
        r == plain_sum(values@),
{
    let mut acc: i64 = 0;
    let mut i: usize = 0;

    proof {
        assert(values@.take(0) =~= Seq::<i64>::empty());
    }
    while i < values.len()
        invariant
            0 <= i <= values@.len(),
            plain_sum_fits(values@),
            acc == plain_sum(values@.take(i as int)),
        decreases values@.len() - i,
    {
        proof {
            assert(values@.take(i as int + 1).drop_last() =~= values@.take(i as int));
            assert(i64::MIN <= plain_sum(values@.take(i as int + 1)) <= i64::MAX);
        }
        acc = acc + values[i];
        i += 1;
    }
    proof {
        assert(values@.take(values@.len() as int) =~= values@);
    }
    acc
}

/// The mean of the values, truncating toward zero; 0 for an empty window.
pub fn mean(values: &[i64]) -> (r: i64)
    requires
        values@.len() <= i64::MAX,
        plain_sum_fits(values@),
    ensures
        r == plain_mean(values@),
{
    if values.len() == 0 {
        return 0;
    }

    let total = sum(values);
    let n = values.len() as i64;
    if total >= 0 {
        proof {
            vstd::arithmetic::div_mod::lemma_div_nonincreasing(total as int, n as int);
            vstd::arithmetic::div_mod::lemma_div_pos_is_pos(total as int, n as int);
        }
        (total as i128 / n as i128) as i64
    } else {
        let neg = -(total as i128);
        proof {
            vstd::arithmetic::div_mod::lemma_div_nonincreasing(neg as int, n as int);
            vstd::arithmetic::div_mod::lemma_div_pos_is_pos(neg as int, n as int);
        }
        (-(neg / n as i128)) as i64
    }
}

/// The first value of the window, which must be non-empty.
pub fn oldest(values: &[i64]) -> (r: i64)
    requires
        values@.len() > 0,
    ensures
        r == values@[0],
{
    values[0]
}

/// The last value of the window, which must be non-empty.
pub fn youngest(values: &[i64]) -> (r: i64)
    requires
        values@.len() > 0,
    ensures
        r == values@.last(),
{
    values[values.len() - 1]
}

} // verus!
