//! Points on a monotonic clock and the spans between them, in nanoseconds.

use vstd::prelude::*;

verus! {

pub const NANOS_PER_SEC: u128 = 1_000_000_000;

pub const NANOS_PER_MILLI: u128 = 1_000_000;

/// A span of time.
#[derive(Debug, Clone, Copy, PartialEq, Eq, Structural)]
pub struct Duration {
    pub nanos: u128,
}

/// A point on a monotonic clock, counted from an arbitrary origin.
#[derive(Debug, Clone, Copy, PartialEq, Eq, Structural)]
pub struct Instant {
    pub nanos: u128,
}

impl Duration {
    pub open spec fn of_secs(secs: nat) -> nat {
        secs * NANOS_PER_SEC as nat
    }

    pub fn from_secs(secs: u64) -> (d: Duration)
        ensures
            d.nanos == Duration::of_secs(secs as nat),
    {
        proof {
            assert(secs * 1_000_000_000 <= 0xFFFF_FFFF_FFFF_FFFF * 1_000_000_000)
                by (nonlinear_arith)
                requires
                    secs <= 0xFFFF_FFFF_FFFF_FFFF,
            ;
        }
        Duration { nanos: secs as u128 * NANOS_PER_SEC }
    }

    pub fn from_millis(millis: u64) -> (d: Duration)
        ensures
            d.nanos == millis * NANOS_PER_MILLI,
    {
        proof {
            assert(millis * 1_000_000 <= 0xFFFF_FFFF_FFFF_FFFF * 1_000_000) by (nonlinear_arith)
                requires
                    millis <= 0xFFFF_FFFF_FFFF_FFFF,
            ;
        }
        Duration { nanos: millis as u128 * NANOS_PER_MILLI }
    }

    /// Whole seconds, at most `u64::MAX`.
    pub open spec fn whole_secs(self) -> nat {
        let q = self.nanos as nat / NANOS_PER_SEC as nat;
        if q > u64::MAX {
            u64::MAX as nat
        } else {
            q
        }
    }

    pub fn as_secs(self) -> (s: u64)
        ensures
            s == self.whole_secs(),
    {
        let q: u128 = self.nanos / NANOS_PER_SEC;
        if q > u64::MAX as u128 {
            u64::MAX
        } else {
            q as u64
        }
    }
}

/// The time from `earlier` to `later`, zero when they are the other way round.
pub open spec fn elapsed(earlier: Instant, later: Instant) -> nat {
    if later.nanos >= earlier.nanos {
        (later.nanos - earlier.nanos) as nat
    } else {
        0
    }
}

impl Instant {
    /// The point in time `d` later.
    pub fn after(self, d: Duration) -> (t: Instant)
        requires
            self.nanos + d.nanos <= u128::MAX,
        ensures
            t.nanos == self.nanos + d.nanos,
    {
        Instant { nanos: self.nanos + d.nanos }
    }

    pub fn duration_since(self, earlier: Instant) -> (d: Duration)
        ensures
            d.nanos == elapsed(earlier, self),
    {
        if self.nanos >= earlier.nanos {
            Duration { nanos: self.nanos - earlier.nanos }
        } else {
            Duration { nanos: 0 }
        }
    }
}

/// A reading of both clocks: the monotonic one that gates, and the wall clock
/// in whole seconds since the Unix epoch that is only shown.
#[derive(Debug, Clone, Copy, PartialEq, Eq, Structural)]
pub struct Clock {
    pub now: Instant,
    pub unix_secs: u64,
}

} // verus!
