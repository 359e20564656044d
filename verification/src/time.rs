use vstd::prelude::*;

verus! {

/// A span of time, counted in whole nanoseconds.
#[derive(Debug, Clone, Copy, PartialEq, Eq, Structural)]
pub struct Duration {
    pub nanos: u64,
}

/// A point on a scope's clock: nanoseconds since the clock's origin.
#[derive(Debug, Clone, Copy, PartialEq, Eq, Structural)]
pub struct Instant {
    pub nanos: u64,
}

/// `a * b`, or `u64::MAX` where the product does not fit.
pub open spec fn saturating_mul(a: u64, b: u64) -> u64 {
    if a * b > u64::MAX {
        u64::MAX
    } else {
        (a * b) as u64
    }
}

/// `a + b`, or `u64::MAX` where the sum does not fit.
pub open spec fn saturating_add(a: u64, b: u64) -> u64 {
    if a + b > u64::MAX {
        u64::MAX
    } else {
        (a + b) as u64
    }
}

/// `a - b`, or `0` where `b > a`.
pub open spec fn saturating_sub(a: u64, b: u64) -> u64 {
    if b > a {
        0
    } else {
        (a - b) as u64
    }
}

fn mul_saturating(a: u64, b: u64) -> (r: u64)
    ensures
        r == saturating_mul(a, b),
{
    match a.checked_mul(b) {
        Some(v) => v,
        None => u64::MAX,
    }
}

impl Duration {
    pub fn zero() -> (d: Duration)
        ensures
            d.nanos == 0,
    {
        Duration { nanos: 0 }
    }

    pub fn from_nanos(nanos: u64) -> (d: Duration)
        ensures
            d.nanos == nanos,
    {
        Duration { nanos }
    }

    pub fn from_micros(micros: u64) -> (d: Duration)
        ensures
            d.nanos == saturating_mul(micros, 1000),
    {
        Duration { nanos: mul_saturating(micros, 1000) }
    }

    pub fn from_millis(millis: u64) -> (d: Duration)
        ensures
            d.nanos == saturating_mul(millis, 1_000_000),
    {
        Duration { nanos: mul_saturating(millis, 1_000_000) }
    }

    pub fn from_secs(secs: u64) -> (d: Duration)
        ensures
            d.nanos == saturating_mul(secs, 1_000_000_000),
    {
        Duration { nanos: mul_saturating(secs, 1_000_000_000) }
    }

    pub fn is_zero(&self) -> (b: bool)
        ensures
            b == (self.nanos == 0),
    {
        self.nanos == 0
    }

    pub fn as_nanos(&self) -> (n: u64)
        ensures
            n == self.nanos,
    {
        self.nanos
    }

    pub fn as_micros(&self) -> (n: u64)
        ensures
            n == self.nanos / 1000,
    {
        self.nanos / 1000
    }

    pub fn as_millis(&self) -> (n: u64)
        ensures
            n == self.nanos / 1_000_000,
    {
        self.nanos / 1_000_000
    }

    /// The shorter of two spans.
    pub fn min(self, other: Duration) -> (d: Duration)
        ensures
            d.nanos == if self.nanos <= other.nanos { self.nanos } else { other.nanos },
    {
        if self.nanos <= other.nanos {
            self
        } else {
            other
        }
    }
}

impl Instant {
    /// The clock's origin.
    pub fn origin() -> (i: Instant)
        ensures
            i.nanos == 0,
    {
        Instant { nanos: 0 }
    }

    /// The point `d` after `self`; the clock saturates at its last point.
    pub fn plus(self, d: Duration) -> (i: Instant)
        ensures
            i.nanos == saturating_add(self.nanos, d.nanos),
    {
        Instant { nanos: self.nanos.saturating_add(d.nanos) }
    }

    /// Time from `earlier` to `self`, or zero where `earlier` is not before `self`.
    pub fn saturating_duration_since(self, earlier: Instant) -> (d: Duration)
        ensures
            d.nanos == saturating_sub(self.nanos, earlier.nanos),
    {
        Duration { nanos: self.nanos.saturating_sub(earlier.nanos) }
    }

    pub fn is_after(self, other: Instant) -> (b: bool)
        ensures
            b == (self.nanos > other.nanos),
    {
        self.nanos > other.nanos
    }
}

} // verus!

verus! {

#[verifier::external_type_specification]
#[verifier::external_body]
pub struct ExStdInstant(std::time::Instant);

/// Calls `std::time::Instant::now`; the reading depends on the machine's clock.
#[verifier::external_body]
fn std_instant_now() -> (i: std::time::Instant) {
    std::time::Instant::now()
}

/// Calls `std::time::Instant::saturating_duration_since`.
#[verifier::external_body]
fn std_saturating_duration_since(later: &std::time::Instant, earlier: &std::time::Instant) -> (d: std::time::Duration) {
    later.saturating_duration_since(*earlier)
}

/// Calls `std::time::Duration::as_nanos`.
#[verifier::external_body]
fn std_duration_as_nanos(d: &std::time::Duration) -> (n: u128) {
    d.as_nanos()
}

/// A monotonic clock whose readings are nanoseconds since it was started.
pub struct Clock {
    origin: std::time::Instant,
}

impl Clock {
    pub fn start() -> (c: Clock) {
        Clock { origin: std_instant_now() }
    }

    /// The current reading; it saturates at `u64::MAX` nanoseconds.
    pub fn now(&self) -> (i: Instant) {
        let now = std_instant_now();
        let d = std_saturating_duration_since(&now, &self.origin);
        let n = std_duration_as_nanos(&d);
        if n > 0xffff_ffff_ffff_ffffu128 {
            Instant { nanos: u64::MAX }
        } else {
            Instant { nanos: n as u64 }
        }
    }
}

} // verus!
