//! Time, in nanoseconds.
//!
//! Arithmetic saturates: a span of more than five centuries is as good as
//! forever here.

use vstd::prelude::*;

verus! {

/// A span of time.
#[derive(Clone, Copy, Debug, PartialEq, Eq, PartialOrd, Ord, Structural)]
pub struct Duration {
    pub nanos: u64,
}

/// A point in time, counted from when its clock was made.
#[derive(Clone, Copy, Debug, PartialEq, Eq, Structural)]
pub struct Instant {
    pub nanos: u64,
}

/// `n`, or the largest count there is.
pub open spec fn clamp(n: int) -> u64 {
    if n > u64::MAX {
        u64::MAX
    } else {
        n as u64
    }
}

/// The span of `s` seconds.
pub open spec fn secs(s: int) -> Duration {
    Duration { nanos: clamp(s * 1_000_000_000) }
}

/// The span of `ms` milliseconds.
pub open spec fn millis(ms: int) -> Duration {
    Duration { nanos: clamp(ms * 1_000_000) }
}

impl Duration {
    pub fn from_secs(s: u64) -> (r: Duration)
        ensures
            r == secs(s as int),
    {
        Duration { nanos: clamp128(s as u128 * 1_000_000_000) }
    }

    pub fn from_millis(ms: u64) -> (r: Duration)
        ensures
            r == millis(ms as int),
    {
        Duration { nanos: clamp128(ms as u128 * 1_000_000) }
    }

    /// Whole seconds in the span.
    pub fn as_secs(&self) -> (r: u64)
        ensures
            r == self.nanos / 1_000_000_000,
    {
        self.nanos / 1_000_000_000
    }
}

fn clamp128(n: u128) -> (r: u64)
    ensures
        r == clamp(n as int),
{
    if n > u64::MAX as u128 {
        u64::MAX
    } else {
        n as u64
    }
}

impl Instant {
    /// The point `d` after this one.
    pub open spec fn after(self, d: Duration) -> Instant {
        Instant { nanos: clamp(self.nanos + d.nanos) }
    }

    /// The span from `earlier` to this point, none if that lies ahead.
    pub open spec fn since(self, earlier: Instant) -> Duration {
        Duration {
            nanos: if self.nanos >= earlier.nanos {
                (self.nanos - earlier.nanos) as u64
            } else {
                0
            },
        }
    }

    pub fn plus(&self, d: Duration) -> (r: Instant)
        ensures
            r == self.after(d),
    {
        Instant { nanos: clamp128(self.nanos as u128 + d.nanos as u128) }
    }

    pub fn duration_since(&self, earlier: Instant) -> (r: Duration)
        ensures
            r == self.since(earlier),
    {
        Duration {
            nanos: if self.nanos >= earlier.nanos {
                self.nanos - earlier.nanos
            } else {
                0
            },
        }
    }

    /// Whether this point lies before `other`.
    pub fn is_before(&self, other: Instant) -> (r: bool)
        ensures
            r == (self.nanos < other.nanos),
    {
        self.nanos < other.nanos
    }
}

/// `std::time::Instant`, the operating system's monotonic clock.
#[verifier::external_type_specification]
#[verifier::external_body]
pub struct ExInstant(std::time::Instant);

/// `std::time::Instant::now`: the present, of which nothing is claimed.
pub assume_specification[ std::time::Instant::now ]() -> std::time::Instant
;

/// `std::time::Instant::elapsed`, in nanoseconds: the time since the instant was
/// read. It depends on when it is called, so nothing is claimed of it.
#[verifier::external_body]
fn nanos_since(start: &std::time::Instant) -> (n: u128) {
    start.elapsed().as_nanos()
}

/// A source of instants. Instants of different clocks are not comparable.
#[derive(Clone, Copy)]
pub struct Clock {
    start: std::time::Instant,
}

impl Clock {
    /// The moment this clock counts from.
    pub closed spec fn start(&self) -> std::time::Instant {
        self.start
    }

    /// Whether `now` is a reading of this clock: the time that the operating system
    /// says has passed since its start, capped at the largest count there is.
    pub closed spec fn reads(&self, now: Instant) -> bool {
        exists|n: u128|
            {
                &&& #[trigger] call_ensures(nanos_since, (&self.start(),), n)
                &&& now == Instant { nanos: clamp(n as int) }
            }
    }

    /// A clock that starts now.
    pub fn new() -> (r: Clock)
        ensures
            call_ensures(std::time::Instant::now, (), r.start()),
    {
        Clock { start: std::time::Instant::now() }
    }

    /// The present. Which instant that is depends on when it is asked; a
    /// decision that rests on it takes the instant as an argument.
    pub fn now(&self) -> (r: Instant)
        ensures
            self.reads(r),
    {
        let n: u128 = nanos_since(&self.start);
        assert(call_ensures(nanos_since, (&self.start(),), n));
        Instant { nanos: clamp128(n) }
    }
}

/// A second is a thousand milliseconds is a billion nanoseconds, for any number of them
/// that can be counted.
pub proof fn spans_add_up(s: int)
    requires
        0 <= s <= 18_446_744_073,
    ensures
        secs(s) == millis(1000 * s),
        secs(s).nanos == s * 1_000_000_000,
{
}

/// A moment that lies a span ahead is that span away, as long as both can be counted.
pub proof fn later_moments_are_as_far_as_they_were_set(t: Instant, d: Duration)
    requires
        t.nanos + d.nanos <= u64::MAX,
    ensures
        t.after(d).since(t) == d,
        t.after(d).nanos >= t.nanos,
        t.since(t.after(d)).nanos == 0,
{
}

/// A moment too far ahead to be counted is the last one there is.
pub proof fn the_far_future_is_the_last_moment(t: Instant, d: Duration)
    requires
        t.nanos + d.nanos > u64::MAX,
    ensures
        t.after(d).nanos == u64::MAX,
{
}

} // verus!
