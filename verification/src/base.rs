//! Timestamps and durations, both counted in signed 64-bit milliseconds.

use vstd::prelude::*;

verus! {

/// A point in time: milliseconds since the epoch.
#[derive(Clone, Copy, Debug, PartialEq, Eq, Structural)]
pub struct TimeStamp(pub i64);

impl TimeStamp {
    /// The raw millisecond count.
    pub fn millis(&self) -> (r: i64)
        ensures
            r == self.0,
    {
        self.0
    }
}

/// A span of time in milliseconds. When used as a window width or an
/// alignment period it must be strictly positive.
#[derive(Clone, Copy, Debug, PartialEq, Eq, Structural)]
pub struct Duration(pub i64);

/// The width of one aggregation bucket.
pub type Interval = Duration;

impl Duration {
    /// The raw millisecond count.
    pub fn millis(&self) -> (r: i64)
        ensures
            r == self.0,
    {
        self.0
    }

    /// A duration of `mins` minutes.
    pub fn from_minutes(mins: i64) -> (r: Duration)
        requires
            i64::MIN <= mins * 60 * 1000 <= i64::MAX,
        ensures
            r.0 == mins * 60 * 1000,
    {
        Duration(mins * 60 * 1000)
    }

    /// A duration of `secs` seconds.
    pub fn from_secs(secs: i64) -> (r: Duration)
        requires
            i64::MIN <= secs * 1000 <= i64::MAX,
        ensures
            r.0 == secs * 1000,
    {
        Duration(secs * 1000)
    }

    /// A duration of `millis` milliseconds.
    pub fn from_millis(millis: i64) -> (r: Duration)
        ensures
            r.0 == millis,
    {
        Duration(millis)
    }
}

} // verus!
