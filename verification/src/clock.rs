//! Spans of time and points on a monotonic clock, in whole nanoseconds.
//!
//! The library never reads a clock: every function that depends on the time
//! takes the current [`Instant`] as an argument.
use vstd::prelude::*;

verus! {

/// Nanoseconds in a microsecond.
pub const NANOS_PER_MICRO: u128 = 1_000;

/// Nanoseconds in a millisecond.
pub const NANOS_PER_MILLI: u128 = 1_000_000;

/// Nanoseconds in a second.
pub const NANOS_PER_SEC: u128 = 1_000_000_000;

/// A span of time.
#[derive(Clone, Copy, Debug, PartialEq, Eq, PartialOrd, Ord, Structural)]
pub struct Duration {
    pub nanos: u128,
}

impl Duration {
    /// The span of `nanos` nanoseconds.
    pub fn from_nanos(nanos: u128) -> (d: Duration)
        ensures
            d.nanos == nanos,
    {
        Duration { nanos }
    }

    /// The span of `micros` microseconds.
    pub fn from_micros(micros: u64) -> (d: Duration)
        ensures
            d.nanos == micros * NANOS_PER_MICRO,
    {
        Duration { nanos: micros as u128 * NANOS_PER_MICRO }
    }

    /// The span of `millis` milliseconds.
    pub fn from_millis(millis: u64) -> (d: Duration)
        ensures
            d.nanos == millis * NANOS_PER_MILLI,
    {
        Duration { nanos: millis as u128 * NANOS_PER_MILLI }
    }

    /// The span of `secs` seconds.
    pub fn from_secs(secs: u64) -> (d: Duration)
        ensures
            d.nanos == secs * NANOS_PER_SEC,
    {
        Duration { nanos: secs as u128 * NANOS_PER_SEC }
    }

    /// Whole nanoseconds in this span.
    pub fn as_nanos(&self) -> (n: u128)
        ensures
            n == self.nanos,
    {
        self.nanos
    }

    /// Whole microseconds in this span.
    pub fn as_micros(&self) -> (n: u128)
        ensures
            n == self.nanos / NANOS_PER_MICRO,
    {
        self.nanos / NANOS_PER_MICRO
    }

    /// Whole milliseconds in this span.
    pub fn as_millis(&self) -> (n: u128)
        ensures
            n == self.nanos / NANOS_PER_MILLI,
    {
        self.nanos / NANOS_PER_MILLI
    }

    /// Whether this span has no length.
    pub fn is_zero(&self) -> (b: bool)
        ensures
            b == (self.nanos == 0),
    {
        self.nanos == 0
    }
}

/// A point on the monotonic clock, counted from an origin the caller picks.
#[derive(Clone, Copy, Debug, PartialEq, Eq, PartialOrd, Ord, Structural)]
pub struct Instant {
    pub nanos: u128,
}

impl Instant {
    /// The point `nanos` nanoseconds after the origin.
    pub fn from_nanos(nanos: u128) -> (t: Instant)
        ensures
            t.nanos == nanos,
    {
        Instant { nanos }
    }

    /// The point `span` after this one.
    pub fn after(&self, span: Duration) -> (t: Instant)
        requires
            self.nanos + span.nanos <= u128::MAX,
        ensures
            t.nanos == self.nanos + span.nanos,
    {
        Instant { nanos: self.nanos + span.nanos }
    }

    /// The span from `earlier` to this point, zero if `earlier` is later.
    pub fn since(&self, earlier: Instant) -> (d: Duration)
        ensures
            d.nanos == if self.nanos >= earlier.nanos {
                self.nanos - earlier.nanos
            } else {
                0
            },
    {
        if self.nanos >= earlier.nanos {
            Duration { nanos: self.nanos - earlier.nanos }
        } else {
            Duration { nanos: 0 }
        }
    }
}

} // verus!
