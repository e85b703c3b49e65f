//! Points and lengths of time as plain numbers.
//!
//! The library never reads a clock. Callers hand in the readings they took,
//! and every rule below is a function of those readings.

use vstd::prelude::*;

verus! {

/// The longest representable span: `u64::MAX` seconds and 999_999_999 ns.
pub const MAX_SPAN_NANOS: u128 = 18_446_744_073_709_551_615_999_999_999;

/// A length of time in whole nanoseconds.
#[derive(Clone, Copy, Debug, PartialEq, Eq, Structural)]
pub struct Span {
    pub nanos: u128,
}

/// A reading of a monotonic clock, in nanoseconds since an arbitrary origin.
#[derive(Clone, Copy, Debug, PartialEq, Eq, Structural)]
pub struct Moment {
    pub nanos: u128,
}

/// The latest representable wall-clock reading: `i64::MAX` seconds and
/// 999_999_999 ns after the Unix epoch.
pub const MAX_WALL_NANOS: i128 = 9_223_372_036_854_775_807_999_999_999;

/// A reading of the wall clock, in nanoseconds since the Unix epoch. Readings
/// before the epoch are negative.
#[derive(Clone, Copy, Debug, PartialEq, Eq, Structural)]
pub struct WallTime {
    pub nanos: i128,
}

pub open spec fn min_int(a: int, b: int) -> int {
    if a <= b {
        a
    } else {
        b
    }
}

impl Span {

    /// A span of whole seconds.
    pub fn from_secs(secs: u64) -> (r: Span)
        ensures
            r.nanos == secs * 1_000_000_000,
    {
        Span { nanos: secs as u128 * 1_000_000_000 }
    }

    /// A span of whole milliseconds.
    pub fn from_millis(millis: u64) -> (r: Span)
        ensures
            r.nanos == millis * 1_000_000,
    {
        Span { nanos: millis as u128 * 1_000_000 }
    }

    /// The longest span.
    pub fn longest() -> (r: Span)
        ensures
            r.nanos == MAX_SPAN_NANOS,
    {
        Span { nanos: MAX_SPAN_NANOS }
    }
}

impl WallTime {
    /// The reading `secs` seconds later, unless it is past the latest one.
    pub open spec fn plus_secs(self, secs: u64) -> Option<WallTime> {
        if self.nanos + secs * 1_000_000_000 <= MAX_WALL_NANOS {
            Some(WallTime { nanos: (self.nanos + secs * 1_000_000_000) as i128 })
        } else {
            None
        }
    }

    /// The reading `secs` seconds later, unless it is past the latest one.
    pub fn checked_add_secs(self, secs: u64) -> (r: Option<WallTime>)
        ensures
            r == self.plus_secs(secs),
    {
        let step: i128 = secs as i128 * 1_000_000_000;
        if self.nanos <= MAX_WALL_NANOS - step {
            Some(WallTime { nanos: self.nanos + step })
        } else {
            None
        }
    }

    /// Whole seconds since the Unix epoch, zero before it.
    pub open spec fn secs_since_epoch(self) -> int {
        if self.nanos < 0 {
            0
        } else {
            self.nanos as int / 1_000_000_000
        }
    }
}

impl Moment {
    /// The span from `earlier` to this reading, or zero when it is not later.
    pub fn saturating_since(self, earlier: Moment) -> (r: Span)
        ensures
            r.nanos == (if self.nanos >= earlier.nanos {
                self.nanos - earlier.nanos
            } else {
                0
            }),
    {
        if self.nanos >= earlier.nanos {
            Span { nanos: self.nanos - earlier.nanos }
        } else {
            Span { nanos: 0 }
        }
    }

    /// The reading `span` later, held at the largest representable reading.
    pub fn later(self, span: Span) -> (r: Moment)
        ensures
            r.nanos == min_int(self.nanos + span.nanos, u128::MAX as int),
    {
        match self.nanos.checked_add(span.nanos) {
            Some(nanos) => Moment { nanos },
            None => Moment { nanos: u128::MAX },
        }
    }
}

} // verus!
