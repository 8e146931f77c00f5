use core::time::Duration;

use vstd::prelude::*;

verus! {

/// What `Duration::as_millis` returns for a duration: its whole milliseconds.
pub uninterp spec fn duration_as_millis(d: Duration) -> u128;

/// Whether `d` is a whole number of milliseconds below 2^64: the duration that
/// `Duration::from_millis` gives for its milliseconds.
pub open spec fn whole_millis(d: Duration) -> bool {
    duration_as_millis(d) <= u64::MAX && d == duration_of_millis(duration_as_millis(d) as u64)
}

/// `Duration` is `Copy`; its `clone` returns the same duration.
pub assume_specification[ <Duration as Clone>::clone ](d: &Duration) -> (r: Duration)
    ensures
        r == *d,
;

/// What `Duration::from_millis` returns for a number of milliseconds.
pub uninterp spec fn duration_of_millis(ms: u64) -> Duration;

/// `Duration::from_millis`: the duration of `ms` milliseconds, whose `as_millis` is `ms`
/// again (the standard library documents both as exact for whole milliseconds).
#[verifier::external_body]
pub(crate) fn duration_from_millis(ms: u64) -> (d: Duration)
    ensures
        d == duration_of_millis(ms),
        duration_as_millis(d) == ms,
{
    Duration::from_millis(ms)
}

/// `Duration::as_millis`: the whole milliseconds of `d`.
#[verifier::external_body]
pub(crate) fn duration_millis(d: Duration) -> (r: u128)
    ensures
        r == duration_as_millis(d),
{
    d.as_millis()
}

/// An RTMP timestamp: unsigned 32-bit milliseconds.
#[derive(Debug, Clone, Copy, PartialEq, Eq, Hash, Structural)]
pub struct RtmpTimestamp(pub u32);

impl RtmpTimestamp {
    /// The zero timestamp (0 ms).
    pub fn zero() -> (r: Self)
        ensures
            r.0 == 0,
    {
        Self(0)
    }

    /// Creates a timestamp from milliseconds.
    pub fn from_millis(t: u32) -> (r: Self)
        ensures
            r.0 == t,
    {
        Self(t)
    }

    /// Returns the timestamp in milliseconds.
    pub fn as_millis(self) -> (r: u32)
        ensures
            r == self.0,
    {
        self.0
    }

    /// The timestamp as a duration.
    pub fn as_duration(self) -> (r: Duration)
        ensures
            duration_as_millis(r) == self.0,
    {
        duration_from_millis(self.0 as u64)
    }

    /// Adds another timestamp, wrapping around on overflow.
    pub fn wrapping_add(self, other: Self) -> (r: Self)
        ensures
            r.0 == (self.0 + other.0) % 0x1_0000_0000,
    {
        Self(self.0.wrapping_add(other.0))
    }

    /// Subtracts another timestamp; `None` when the result would be negative.
    pub fn checked_sub(self, other: Self) -> (r: Option<Self>)
        ensures
            self.0 >= other.0 <==> r is Some,
            r matches Some(d) ==> d.0 == self.0 - other.0,
    {
        match self.0.checked_sub(other.0) {
            Some(v) => Some(Self(v)),
            None => None,
        }
    }
}

/// A difference between RTMP timestamps: signed 32-bit milliseconds.
#[derive(Debug, Clone, Copy, PartialEq, Eq, Hash, Structural)]
pub struct RtmpTimestampDelta(pub i32);

impl RtmpTimestampDelta {
    /// The zero delta (0 ms).
    pub fn zero() -> (r: Self)
        ensures
            r.0 == 0,
    {
        Self(0)
    }

    /// Creates a delta from milliseconds.
    pub fn from_millis(t: i32) -> (r: Self)
        ensures
            r.0 == t,
    {
        Self(t)
    }

    /// Returns the delta in milliseconds.
    pub fn as_millis(self) -> (r: i32)
        ensures
            r == self.0,
    {
        self.0
    }
}

} // verus!
