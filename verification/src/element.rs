//! A single timestamped sample, and ordering facts about sequences of them.

use vstd::prelude::*;

use crate::base::TimeStamp;
use crate::sample::Sample;

verus! {

/// Element represents a single timestamped sample.
#[derive(Clone, Copy, Debug, PartialEq, Eq, Structural)]
pub struct Element(pub TimeStamp, pub Sample);

/// The timestamps of `s` are non-decreasing.
pub open spec fn ts_sorted(s: Seq<Element>) -> bool {
    forall|i: int, j: int| 0 <= i < j < s.len() ==> s[i].0.0 <= s[j].0.0
}

/// The first index at or past `i` whose element's timestamp is at least `t`,
/// or `s.len()` if there is none.
pub open spec fn first_ts_geq_from(s: Seq<Element>, i: int, t: int) -> int
    decreases s.len() - i,
{
    if i < 0 || i >= s.len() {
        s.len() as int
    } else if s[i].0.0 >= t {
        i
    } else {
        first_ts_geq_from(s, i + 1, t)
    }
}

/// `first_ts_geq_from(s, i, t)` lands at or past `i`, every element it skips
/// has a timestamp below `t`, and the element it lands on (if any) does not.
pub proof fn lemma_first_ts_geq_from(s: Seq<Element>, i: int, t: int)
    requires
        0 <= i <= s.len(),
    ensures
        i <= first_ts_geq_from(s, i, t) <= s.len(),
        forall|j: int| i <= j < first_ts_geq_from(s, i, t) ==> s[j].0.0 < t,
        first_ts_geq_from(s, i, t) < s.len() ==> s[first_ts_geq_from(s, i, t)].0.0 >= t,
    decreases s.len() - i,
{
    if i < s.len() && s[i].0.0 < t {
        lemma_first_ts_geq_from(s, i + 1, t);
    }
}

/// Starting the search anywhere inside a prefix of timestamps below `t`
/// finds the same index as starting at the front.
pub proof fn lemma_first_ts_geq_from_advance(s: Seq<Element>, a: int, b: int, t: int)
    requires
        0 <= a <= b <= s.len(),
        forall|j: int| a <= j < b ==> s[j].0.0 < t,
    ensures
        first_ts_geq_from(s, a, t) == first_ts_geq_from(s, b, t),
    decreases b - a,
{
    if a < b {
        lemma_first_ts_geq_from_advance(s, a + 1, b, t);
    }
}

/// An index below which every timestamp is under `t` and whose own element
/// (if any) is not under `t` is exactly `first_ts_geq_from(s, 0, t)`.
pub proof fn lemma_first_ts_geq_char(s: Seq<Element>, t: int, r: int)
    requires
        0 <= r <= s.len(),
        forall|j: int| 0 <= j < r ==> s[j].0.0 < t,
        r < s.len() ==> s[r].0.0 >= t,
    ensures
        first_ts_geq_from(s, 0, t) == r,
{
    lemma_first_ts_geq_from_advance(s, 0, r, t);
}

} // verus!
