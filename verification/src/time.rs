//! Spans of time, and the clock.

use vstd::prelude::*;

verus! {

/// A span of time.
#[derive(Debug, Clone, Copy, PartialEq, Eq, PartialOrd, Ord, Structural)]
pub struct Duration {
    pub nanos: u128,
}

impl Duration {
    pub fn from_secs(secs: u64) -> (r: Self)
        ensures
            r.nanos == secs * 1_000_000_000,
    {
        Duration { nanos: secs as u128 * 1_000_000_000 }
    }

    pub fn from_millis(millis: u64) -> (r: Self)
        ensures
            r.nanos == millis * 1_000_000,
    {
        Duration { nanos: millis as u128 * 1_000_000 }
    }

    /// Half of the span, rounded down.
    pub fn half(&self) -> (r: Self)
        ensures
            r.nanos == self.nanos / 2,
    {
        Duration { nanos: self.nanos / 2 }
    }
}

/// `std::time::SystemTime::now`, in whole seconds since the Unix epoch; 0 before it.
#[verifier::external_body]
pub(crate) fn unix_time() -> (r: u64) {
    std::time::SystemTime::now().duration_since(std::time::UNIX_EPOCH).unwrap_or_default().as_secs()
}

} // verus!
