//! Sample-level aggregation operators, used when re-aggregating an already
//! aligned series (the samples carry no timestamps of their own).

use vstd::prelude::*;

use crate::ops::{delta_fits, spec_delta};
use crate::sample::Sample;

verus! {

/// The increase between exactly two samples, or the last value itself when
/// the pair decreased (a counter reset); `Error` for any other arity.
pub fn delta(values: &[Sample]) -> (r: Sample)
    requires
        delta_fits(values@),
    ensures
        r == spec_delta(values@),
{
    if values.len() != 2 {
        Sample::Error
    } else {
        let last = values[1].val();
        let prev = values[0].val();

        if last > prev {
            Sample::Point(last - prev)
        } else {
            Sample::Point(last)
        }
    }
}

} // verus!
