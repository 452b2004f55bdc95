//! Points in time and spans of time, in whole nanoseconds.

use vstd::prelude::*;

verus! {

/// Nanoseconds in one millisecond.
pub const NANOS_PER_MILLI: u128 = 1_000_000;

/// A span of time.
#[derive(Clone, Copy, Debug, PartialEq, Eq, Structural)]
pub struct Duration {
    pub nanos: u128,
}

impl Duration {
    /// The span of `millis` milliseconds.
    pub open spec fn of_millis(millis: int) -> int {
        millis * 1_000_000
    }

    pub fn from_millis(millis: u64) -> (span: Duration)
        ensures
            span.nanos == Duration::of_millis(millis as int),
    {
        Duration { nanos: millis as u128 * NANOS_PER_MILLI }
    }

    pub fn from_secs(secs: u64) -> (span: Duration)
        ensures
            span.nanos == Duration::of_millis(secs * 1000),
    {
        Duration { nanos: secs as u128 * 1_000 * NANOS_PER_MILLI }
    }

    pub fn is_zero(self) -> (zero: bool)
        ensures
            zero == (self.nanos == 0),
    {
        self.nanos == 0
    }

    /// The shorter of two spans.
    pub fn min(self, other: Duration) -> (shorter: Duration)
        ensures
            shorter.nanos == (if self.nanos <= other.nanos { self.nanos } else { other.nanos }),
    {
        if self.nanos <= other.nanos {
            self
        } else {
            other
        }
    }

    /// What is left of this span after `other`, and nothing if `other` is the longer one.
    pub fn saturating_sub(self, other: Duration) -> (rest: Duration)
        ensures
            rest.nanos == elapsed(other.nanos as int, self.nanos as int),
    {
        if self.nanos >= other.nanos {
            Duration { nanos: self.nanos - other.nanos }
        } else {
            Duration { nanos: 0 }
        }
    }
}

/// A point in time, counted from an epoch that the caller fixes once.
#[derive(Clone, Copy, Debug, PartialEq, Eq, Structural)]
pub struct Instant {
    pub nanos: u128,
}

/// The time from `earlier` to `later`, and 0 if `later` comes first.
pub open spec fn elapsed(earlier: int, later: int) -> int {
    if later >= earlier {
        later - earlier
    } else {
        0
    }
}

impl Instant {
    /// Whether the clock can still count `millis` milliseconds past this point.
    pub open spec fn can_add(self, millis: int) -> bool {
        self.nanos + Duration::of_millis(millis) <= u128::MAX
    }

    pub fn saturating_duration_since(self, earlier: Instant) -> (span: Duration)
        ensures
            span.nanos == elapsed(earlier.nanos as int, self.nanos as int),
    {
        if self.nanos >= earlier.nanos {
            Duration { nanos: self.nanos - earlier.nanos }
        } else {
            Duration { nanos: 0 }
        }
    }

    /// The point in time that lies `span` after this one.
    pub fn after(self, span: Duration) -> (later: Instant)
        requires
            self.nanos + span.nanos <= u128::MAX,
        ensures
            later.nanos == self.nanos + span.nanos,
    {
        Instant { nanos: self.nanos + span.nanos }
    }
}

// ---- laws ----

/// A second is a thousand milliseconds, and a millisecond is a million nanoseconds.
pub proof fn seconds_are_a_billion_nanoseconds(seconds: int)
    ensures
        Duration::of_millis(seconds * 1000) == seconds * 1_000_000_000,
        Duration::of_millis(1) == 1_000_000,
{
}

/// The time that has gone by and what is left of a span add up to the span, until it is over.
pub proof fn spans_are_used_up(start: int, now: int, span: int)
    requires
        start <= now,
        span >= 0,
    ensures
        elapsed(start, now) == now - start,
        now <= start + span ==> elapsed(start, now) + elapsed(elapsed(start, now), span) == span,
        now >= start + span ==> elapsed(elapsed(start, now), span) == 0,
        elapsed(now, start) == 0 || now == start,
{
}

} // verus!
