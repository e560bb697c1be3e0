//! Event time and durations.
//!
//! A `Time` is a point in event time, measured in milliseconds relative to an
//! epoch; it is totally ordered and supports subtracting a `Duration`. Event
//! time is logical: once a timestamp is attached to a record, it no longer
//! tracks any wall clock.

use vstd::prelude::*;

verus! {

/// A point in event time, in milliseconds.
#[derive(Debug, Clone, Copy, PartialEq, Eq, Structural)]
pub struct Time(pub i64);

/// A span of event time, in milliseconds. Durations are never negative.
#[derive(Debug, Clone, Copy, PartialEq, Eq, Structural)]
pub struct Duration(pub i64);

/// `t - d`, clamped at the smallest representable time.
pub open spec fn spec_sub_saturating(t: int, d: int) -> int {
    if t - d < i64::MIN { i64::MIN as int } else { t - d }
}

/// `t + d`, clamped at the largest representable time.
pub open spec fn spec_add_saturating(t: int, d: int) -> int {
    if t + d > i64::MAX { i64::MAX as int } else { t + d }
}

impl Time {
    pub open spec fn wf(self) -> bool {
        true
    }

    pub fn zero() -> (r: Time)
        ensures
            r.0 == 0,
    {
        Time(0)
    }

    pub fn le(self, other: Time) -> (r: bool)
        ensures
            r == (self.0 <= other.0),
    {
        self.0 <= other.0
    }

    pub fn lt(self, other: Time) -> (r: bool)
        ensures
            r == (self.0 < other.0),
    {
        self.0 < other.0
    }

    pub fn min(self, other: Time) -> (r: Time)
        ensures
            r.0 == if self.0 <= other.0 { self.0 } else { other.0 },
    {
        if self.0 <= other.0 { self } else { other }
    }

    pub fn max(self, other: Time) -> (r: Time)
        ensures
            r.0 == if self.0 >= other.0 { self.0 } else { other.0 },
    {
        if self.0 >= other.0 { self } else { other }
    }

    /// Move this time earlier by `d`, saturating at the smallest time.
    pub fn sub_duration(self, d: Duration) -> (r: Time)
        requires
            d.wf(),
        ensures
            r.0 == spec_sub_saturating(self.0 as int, d.0 as int),
    {
        if self.0 >= i64::MIN + d.0 {
            Time(self.0 - d.0)
        } else {
            Time(i64::MIN)
        }
    }

    /// Move this time later by `d`, saturating at the largest time.
    pub fn add_duration(self, d: Duration) -> (r: Time)
        requires
            d.wf(),
        ensures
            r.0 == spec_add_saturating(self.0 as int, d.0 as int),
    {
        if self.0 <= i64::MAX - d.0 {
            Time(self.0 + d.0)
        } else {
            Time(i64::MAX)
        }
    }
}

impl Duration {
    /// Durations must not be negative.
    pub open spec fn wf(self) -> bool {
        self.0 >= 0
    }

    pub fn from_milliseconds(ms: i64) -> (r: Duration)
        requires
            ms >= 0,
        ensures
            r.0 == ms,
            r.wf(),
    {
        Duration(ms)
    }

    pub fn from_seconds(s: i64) -> (r: Duration)
        requires
            0 <= s <= 9223372036854775,
        ensures
            r.0 == s * 1000,
            r.wf(),
    {
        Duration(s * 1000)
    }

    pub fn from_minutes(m: i64) -> (r: Duration)
        requires
            0 <= m <= 153722867280912,
        ensures
            r.0 == m * 60000,
            r.wf(),
    {
        Duration(m * 60000)
    }
}

} // verus!
