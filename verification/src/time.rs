//! Durations, monotonic instants and wall-clock timestamps.

use vstd::prelude::*;

verus! {

/// Number of nanoseconds in one millisecond.
pub const NANOS_PER_MILLI: u128 = 1_000_000;

/// Number of nanoseconds in one microsecond.
pub const NANOS_PER_MICRO: u128 = 1_000;

/// Number of nanoseconds in one second.
pub const NANOS_PER_SEC: u128 = 1_000_000_000;

/// The longest span a standard-library duration can hold, in nanoseconds.
pub const MAX_STD_DURATION_NANOS: u128 = 18_446_744_073_709_551_615_999_999_999;

/// The `Debug` text of the standard-library duration of `secs` seconds and
/// `subsec_nanos` nanoseconds (such as `2s`, `1.5ms` or `10ns`).
pub uninterp spec fn duration_debug_text(secs: u64, subsec_nanos: u32) -> Seq<char>;

/// Calls `std::time::Duration::new` and renders the result with `Debug`.
/// Claimed: the text is `duration_debug_text` of the two arguments; the
/// `requires` keeps `new` from carrying nanoseconds into the seconds.
#[verifier::external_body]
fn std_duration_debug(secs: u64, subsec_nanos: u32) -> (s: String)
    requires
        subsec_nanos < 1_000_000_000,
    ensures
        s@ == duration_debug_text(secs, subsec_nanos),
{
    format!("{:?}", std::time::Duration::new(secs, subsec_nanos))
}

/// A span of time, counted in nanoseconds.
#[derive(Clone, Copy, Debug, PartialEq, Eq, Structural)]
pub struct Duration {
    pub nanos: u128,
}

impl Duration {
    /// The empty span.
    pub fn zero() -> (d: Duration)
        ensures
            d.nanos == 0,
    {
        Duration { nanos: 0 }
    }

    pub fn from_nanos(nanos: u64) -> (d: Duration)
        ensures
            d.nanos == nanos,
    {
        Duration { nanos: nanos as u128 }
    }

    pub fn from_millis(millis: u64) -> (d: Duration)
        ensures
            d.nanos == millis * NANOS_PER_MILLI,
    {
        Duration { nanos: millis as u128 * NANOS_PER_MILLI }
    }

    pub fn from_secs(secs: u64) -> (d: Duration)
        ensures
            d.nanos == secs * NANOS_PER_SEC,
    {
        Duration { nanos: secs as u128 * NANOS_PER_SEC }
    }

    pub fn is_zero(&self) -> (b: bool)
        ensures
            b == (self.nanos == 0),
    {
        self.nanos == 0
    }

    pub fn as_nanos(&self) -> (n: u128)
        ensures
            n == self.nanos,
    {
        self.nanos
    }

    /// Whole microseconds in this span.
    pub fn as_micros(&self) -> (n: u128)
        ensures
            n == self.nanos / NANOS_PER_MICRO,
    {
        self.nanos / NANOS_PER_MICRO
    }

    /// Whole milliseconds in this span.
    pub fn as_millis(&self) -> (n: u128)
        ensures
            n == self.nanos / NANOS_PER_MILLI,
    {
        self.nanos / NANOS_PER_MILLI
    }

    /// `self - earlier`, or zero when `earlier` is the longer span.
    pub fn saturating_sub(&self, earlier: Duration) -> (d: Duration)
        ensures
            d.nanos == if self.nanos >= earlier.nanos { self.nanos - earlier.nanos } else { 0 },
    {
        if self.nanos >= earlier.nanos {
            Duration { nanos: self.nanos - earlier.nanos }
        } else {
            Duration { nanos: 0 }
        }
    }

    /// `self + other`; the sum must fit in a standard-library duration.
    pub fn add(&self, other: Duration) -> (d: Duration)
        requires
            self.nanos + other.nanos <= MAX_STD_DURATION_NANOS,
        ensures
            d.nanos == self.nanos + other.nanos,
    {
        Duration { nanos: self.nanos + other.nanos }
    }

    /// Twice this span, or the longest representable span on overflow.
    pub fn saturating_double(&self) -> (d: Duration)
        ensures
            d.nanos == if 2 * self.nanos <= u128::MAX { 2 * self.nanos } else { u128::MAX as int },
    {
        if self.nanos <= u128::MAX / 2 {
            Duration { nanos: self.nanos * 2 }
        } else {
            Duration { nanos: u128::MAX }
        }
    }

    /// Whether a standard-library duration can hold this span.
    pub open spec fn fits_std(&self) -> bool {
        self.nanos <= MAX_STD_DURATION_NANOS
    }

    /// The text of this span in the standard-library `Debug` form.
    pub fn debug_text(&self) -> (s: String)
        requires
            self.fits_std(),
        ensures
            s@ == duration_debug_text((self.nanos / NANOS_PER_SEC) as u64, (self.nanos % NANOS_PER_SEC) as u32),
    {
        let secs = self.nanos / NANOS_PER_SEC;
        let subsec = self.nanos % NANOS_PER_SEC;
        std_duration_debug(secs as u64, subsec as u32)
    }

    /// Whether this span is no longer than `other`.
    pub fn le(&self, other: &Duration) -> (b: bool)
        ensures
            b == (self.nanos <= other.nanos),
    {
        self.nanos <= other.nanos
    }

    /// The shorter of two spans.
    pub fn min(&self, other: Duration) -> (d: Duration)
        ensures
            d.nanos == if self.nanos <= other.nanos { self.nanos } else { other.nanos },
    {
        if self.nanos <= other.nanos {
            *self
        } else {
            other
        }
    }
}

/// A wall-clock timestamp that may jump backward or forward. It is only for
/// informational timestamps; it offers no comparison or arithmetic.
#[derive(Clone, Copy, Debug)]
pub struct UnsafeWallTime {
    pub since_epoch: Duration,
}

impl UnsafeWallTime {
    /// A wall-clock timestamp from a span since the clock's epoch.
    pub fn from_duration_since_epoch(duration: Duration) -> (t: UnsafeWallTime)
        ensures
            t.since_epoch == duration,
    {
        UnsafeWallTime { since_epoch: duration }
    }

    /// This timestamp as whole milliseconds since the clock's epoch.
    pub fn as_millis(&self) -> (ms: u128)
        ensures
            ms == self.since_epoch.nanos / NANOS_PER_MILLI,
    {
        self.since_epoch.as_millis()
    }
}

/// A point on a monotonic clock's timeline, as the span since its origin.
#[derive(Clone, Copy, Debug, PartialEq, Eq, Structural)]
pub struct MonotonicInstant {
    pub since_origin: Duration,
}

impl MonotonicInstant {
    /// An instant from the elapsed span since a monotonic clock's origin.
    pub fn from_duration_since_clock_origin(duration: Duration) -> (i: MonotonicInstant)
        ensures
            i.since_origin == duration,
    {
        MonotonicInstant { since_origin: duration }
    }

    /// The nonnegative span elapsed since `earlier`.
    pub fn duration_since(self, earlier: MonotonicInstant) -> (d: Duration)
        ensures
            d.nanos == if self.since_origin.nanos >= earlier.since_origin.nanos {
                self.since_origin.nanos - earlier.since_origin.nanos
            } else {
                0
            },
    {
        self.since_origin.saturating_sub(earlier.since_origin)
    }

    /// The instant `duration` after this one; the span since the origin
    /// must fit in a standard-library duration.
    pub fn add(self, duration: Duration) -> (i: MonotonicInstant)
        requires
            self.since_origin.nanos + duration.nanos <= MAX_STD_DURATION_NANOS,
        ensures
            i.since_origin.nanos == self.since_origin.nanos + duration.nanos,
    {
        MonotonicInstant { since_origin: self.since_origin.add(duration) }
    }

    /// Whether this instant is at or after `other`.
    pub fn is_at_or_after(&self, other: MonotonicInstant) -> (b: bool)
        ensures
            b == (self.since_origin.nanos >= other.since_origin.nanos),
    {
        self.since_origin.nanos >= other.since_origin.nanos
    }

    /// Whether this instant is strictly before `other`.
    pub fn is_before(&self, other: MonotonicInstant) -> (b: bool)
        ensures
            b == (self.since_origin.nanos < other.since_origin.nanos),
    {
        self.since_origin.nanos < other.since_origin.nanos
    }
}

/// Clock for wall-clock timestamps and elapsed-time measurement.
pub trait Clock {
    /// The current wall-clock time; unsafe for correctness decisions.
    fn unsafe_wall_time(&self) -> UnsafeWallTime;

    /// The current point on a monotonic timeline.
    fn monotonic_time(&self) -> MonotonicInstant;
}

/// A clock that reads whatever time it was last set to.
#[derive(Clone, Copy, Debug)]
pub struct ManualClock {
    pub now: MonotonicInstant,
    pub wall: UnsafeWallTime,
}

impl Clock for ManualClock {
    fn unsafe_wall_time(&self) -> (t: UnsafeWallTime)
        ensures
            t == self.wall,
    {
        self.wall
    }

    fn monotonic_time(&self) -> (t: MonotonicInstant)
        ensures
            t == self.now,
    {
        self.now
    }
}


#[verifier::external_type_specification]
#[verifier::external_body]
pub struct ExInstant(std::time::Instant);

#[verifier::external_type_specification]
#[verifier::external_body]
pub struct ExSystemTime(std::time::SystemTime);

/// Calls `std::time::Instant::now`. Nothing is claimed of the instant.
#[verifier::external_body]
fn instant_now() -> (i: std::time::Instant) {
    std::time::Instant::now()
}

/// Calls `Instant::elapsed` on `origin`, in nanoseconds. Of the span only
/// its bound is claimed: a `Duration` holds at most `u64::MAX` seconds and
/// 999,999,999 nanoseconds. The rest depends on when the call is made.
#[verifier::external_body]
fn nanos_elapsed_since(origin: &std::time::Instant) -> (n: u128)
    ensures
        n <= MAX_STD_DURATION_NANOS,
{
    origin.elapsed().as_nanos()
}

/// Calls `std::time::SystemTime::now`. Nothing is claimed of the time.
#[verifier::external_body]
fn system_now() -> (t: std::time::SystemTime) {
    std::time::SystemTime::now()
}

/// Calls `SystemTime::duration_since(UNIX_EPOCH)` on `t`, in nanoseconds;
/// `None` when `t` is before the epoch. Of the span only its bound is
/// claimed: a `Duration` holds at most `u64::MAX` seconds and 999,999,999
/// nanoseconds.
#[verifier::external_body]
fn nanos_since_unix_epoch(t: &std::time::SystemTime) -> (r: Option<u128>)
    ensures
        r matches Some(n) ==> n <= MAX_STD_DURATION_NANOS,
{
    match t.duration_since(std::time::UNIX_EPOCH) {
        Ok(d) => Some(d.as_nanos()),
        Err(_) => None,
    }
}

/// The system's clocks: wall time from the system clock, and monotonic time
/// as the span since this clock was made.
pub struct RealClock {
    monotonic_origin: std::time::Instant,
}

impl RealClock {
    /// A clock whose monotonic origin is now.
    pub fn new() -> (c: RealClock) {
        RealClock { monotonic_origin: instant_now() }
    }
}

impl Clock for RealClock {
    /// The system time since the Unix epoch; a system clock set before the
    /// epoch reads as the epoch itself.
    fn unsafe_wall_time(&self) -> (t: UnsafeWallTime)
        ensures
            t.since_epoch.fits_std(),
    {
        let now = system_now();
        match nanos_since_unix_epoch(&now) {
            Some(nanos) => UnsafeWallTime::from_duration_since_epoch(Duration { nanos }),
            None => UnsafeWallTime::from_duration_since_epoch(Duration::zero()),
        }
    }

    fn monotonic_time(&self) -> (t: MonotonicInstant)
        ensures
            t.since_origin.fits_std(),
    {
        MonotonicInstant::from_duration_since_clock_origin(Duration { nanos: nanos_elapsed_since(&self.monotonic_origin) })
    }
}

} // verus!
