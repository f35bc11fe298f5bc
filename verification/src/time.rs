//! Spans of time, and the clocks that the library reads.

use std::time::Instant;

use vstd::prelude::*;

verus! {

/// A span of time, in nanoseconds.
#[derive(Debug, Clone, Copy, PartialEq, Eq, PartialOrd, Ord, Hash, Structural)]
pub struct Duration {
    pub nanos: u128,
}

impl Duration {
    pub fn from_nanos(nanos: u128) -> (d: Duration)
        ensures
            d.nanos == nanos,
    {
        Duration { nanos }
    }

    pub fn from_millis(millis: u64) -> (d: Duration)
        ensures
            d.nanos == millis * 1_000_000,
    {
        Duration { nanos: millis as u128 * 1_000_000 }
    }

    pub fn from_secs(secs: u64) -> (d: Duration)
        ensures
            d.nanos == secs * 1_000_000_000,
    {
        Duration { nanos: secs as u128 * 1_000_000_000 }
    }

    /// Whole milliseconds in the span.
    pub fn as_millis(self) -> (millis: u128)
        ensures
            millis == self.nanos / 1_000_000,
    {
        self.nanos / 1_000_000
    }

    /// Whole seconds in the span.
    pub fn as_secs(self) -> (secs: u128)
        ensures
            secs == self.nanos / 1_000_000_000,
    {
        self.nanos / 1_000_000_000
    }

    /// The span less `other`, or no time at all where `other` is longer.
    pub fn saturating_sub(self, other: Duration) -> (d: Duration)
        ensures
            d.nanos == if self.nanos >= other.nanos {
                self.nanos - other.nanos
            } else {
                0
            },
    {
        if self.nanos >= other.nanos {
            Duration { nanos: self.nanos - other.nanos }
        } else {
            Duration { nanos: 0 }
        }
    }
}

/// A reading of the monotonic clock.
#[verifier::external_type_specification]
#[verifier::external_body]
pub struct ExInstant(Instant);

/// The nanoseconds from `earlier` to `later`, or none where `later` is not
/// the later of the two.
pub uninterp spec fn nanos_between(later: Instant, earlier: Instant) -> u128;

/// `Instant::now`: reads the monotonic clock. Nothing is claimed of the
/// reading.
pub assume_specification[ Instant::now ]() -> (now: Instant);

/// `Instant::saturating_duration_since`: the time between two readings of the
/// clock is fixed by the two readings.
#[verifier::external_body]
pub(crate) fn duration_between(later: Instant, earlier: Instant) -> (d: Duration)
    ensures
        d.nanos == nanos_between(later, earlier),
{
    Duration { nanos: later.saturating_duration_since(earlier).as_nanos() }
}

/// `SystemTime::elapsed` of the Unix epoch: how long ago the epoch was by the
/// wall clock, or `None` where the clock stands before it. Nothing is claimed
/// of the reading.
#[verifier::external_body]
pub(crate) fn unix_time() -> (since_epoch: Option<Duration>)
{
    match std::time::UNIX_EPOCH.elapsed() {
        Ok(d) => Some(Duration { nanos: d.as_nanos() }),
        Err(_) => None,
    }
}

} // verus!
