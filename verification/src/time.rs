//! Spans of time and instants, as whole nanoseconds.

use vstd::prelude::*;

verus! {

/// The nanoseconds in a second.
pub const NANOS_PER_SEC: u128 = 1_000_000_000;

/// The nanoseconds in a millisecond.
pub const NANOS_PER_MILLI: u128 = 1_000_000;

/// An instant: the nanoseconds that have passed since the clock's start.
pub type Instant = u128;

/// The last instant at which a time to live read from a command can still
/// be added without leaving the range of instants.
pub const LAST_INSTANT: u128 = 0x7fff_ffff_ffff_ffff_ffff_ffff_ffff_ffff;

/// A span of time.
#[derive(Clone, Copy, Debug, PartialEq, Eq)]
pub struct Duration {
    pub nanos: u128,
}

impl Duration {
    /// A span of whole seconds.
    pub fn from_secs(secs: u64) -> (d: Duration)
        ensures
            d.nanos == secs * NANOS_PER_SEC,
    {
        Duration { nanos: secs as u128 * NANOS_PER_SEC }
    }

    /// A span of whole milliseconds.
    pub fn from_millis(millis: u64) -> (d: Duration)
        ensures
            d.nanos == millis * NANOS_PER_MILLI,
    {
        Duration { nanos: millis as u128 * NANOS_PER_MILLI }
    }

    /// A span of nanoseconds.
    pub fn from_nanos(nanos: u128) -> (d: Duration)
        ensures
            d.nanos == nanos,
    {
        Duration { nanos }
    }

    /// The whole milliseconds in the span.
    pub fn as_millis(&self) -> (millis: u128)
        ensures
            millis == self.nanos / NANOS_PER_MILLI,
    {
        self.nanos / NANOS_PER_MILLI
    }

    /// The nanoseconds in the span.
    pub fn as_nanos(&self) -> (nanos: u128)
        ensures
            nanos == self.nanos,
    {
        self.nanos
    }
}

} // verus!
