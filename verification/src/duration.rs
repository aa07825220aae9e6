//! Spans of time.
use vstd::prelude::*;

verus! {

/// A span of time in whole nanoseconds.
#[derive(Clone, Copy, Debug, PartialEq, Eq, Structural)]
pub struct Duration {
    pub nanos: u128,
}

impl Duration {
    /// No time at all.
    pub fn zero() -> (r: Duration)
        ensures
            r.nanos == 0,
    {
        Duration { nanos: 0 }
    }

    /// A number of seconds.
    pub fn from_secs(secs: u64) -> (r: Duration)
        ensures
            r.nanos == secs * 1_000_000_000,
    {
        Duration { nanos: secs as u128 * 1_000_000_000 }
    }

    /// A number of milliseconds.
    pub fn from_millis(millis: u64) -> (r: Duration)
        ensures
            r.nanos == millis * 1_000_000,
    {
        Duration { nanos: millis as u128 * 1_000_000 }
    }
}

} // verus!
