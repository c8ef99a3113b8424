//! The sample value model: one reading's state.

use vstd::prelude::*;

verus! {

/// One reading. A window of samples is reduced to a single `Sample`, so the
/// variants also describe aggregated values.
#[derive(Clone, Copy, Debug, PartialEq, Eq, Structural)]
pub enum Sample {
    /// No valid value: empty input, or deliberately invalidated.
    Error,
    /// An explicit reset marker; carries the value 0 for arithmetic, but is
    /// semantically distinct ("the counter restarted here").
    Zero,
    /// A real observed or aggregated value.
    Point(i64),
    /// A value synthesized by extrapolation or carry-forward rather than
    /// observed. Any aggregation window containing a `Fake` input produces a
    /// `Fake` output, so the taint is never silently dropped.
    Fake(i64),
}

/// Structural comparison of samples; `Fake` values never compare equal, so a
/// tainted result cannot silently pass for an observed one.
pub trait SampleEquals {
    fn equals(&self, other: &Self) -> bool;
}

impl Sample {
    /// The usable scalar carried by a sample: 0 for `Error` and `Zero`.
    pub open spec fn spec_val(self) -> i64 {
        match self {
            Sample::Error => 0,
            Sample::Zero => 0,
            Sample::Point(v) => v,
            Sample::Fake(v) => v,
        }
    }

    /// Create a new sample with the given value.
    pub fn point(value: i64) -> (r: Sample)
        ensures
            r == Sample::Point(value),
    {
        Sample::Point(value)
    }

    /// Create a zero-valued (reset) sample.
    pub fn zero() -> (r: Sample)
        ensures
            r == Sample::Zero,
    {
        Sample::Zero
    }

    /// Returns true if the sample is an error.
    pub fn is_err(&self) -> (r: bool)
        ensures
            r == (self is Error),
    {
        matches!(self, Sample::Error)
    }

    /// Returns true if the sample is a reset marker.
    pub fn is_zero(&self) -> (r: bool)
        ensures
            r == (self is Zero),
    {
        matches!(self, Sample::Zero)
    }

    /// Returns a copy of the sample value (0 for `Error` and `Zero`).
    pub fn val(&self) -> (r: i64)
        ensures
            r == self.spec_val(),
    {
        match self {
            Sample::Error => 0,
            Sample::Zero => 0,
            Sample::Point(v) => *v,
            Sample::Fake(v) => *v,
        }
    }
}

impl SampleEquals for Sample {
    fn equals(&self, other: &Self) -> (r: bool)
        ensures
            r == match (*self, *other) {
                (Sample::Error, Sample::Error) => true,
                (Sample::Zero, Sample::Zero) => true,
                (Sample::Point(v1), Sample::Point(v2)) => v1 == v2,
                _ => false,
            },
    {
        match (self, other) {
            (Sample::Error, Sample::Error) => true,
            (Sample::Zero, Sample::Zero) => true,
            (Sample::Point(v1), Sample::Point(v2)) => v1 == v2,
            _ => false,
        }
    }
}

} // verus!
