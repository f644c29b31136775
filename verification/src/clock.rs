//! The monotonic clock. A reading is the number of nanoseconds since the clock was started.
use std::time::Instant;
use vstd::prelude::*;

verus! {

/// Nanoseconds in one second.
pub const NANOS_PER_SEC: u128 = 1_000_000_000;

/// The longest span of time that the standard library can express, in nanoseconds:
/// `u64::MAX` seconds and 999,999,999 nanoseconds.
pub const MAX_SPAN: u128 = 18_446_744_073_709_551_615_999_999_999;

/// `std::time::Instant`, a point in time that nothing here looks into.
#[verifier::external_type_specification]
#[verifier::external_body]
pub struct ExInstant(Instant);

/// Trusted: `std::time::Instant::now`. Nothing is claimed of the point in time it returns.
#[verifier::external_body]
fn instant_now() -> (r: Instant) {
    Instant::now()
}

/// The nanoseconds from one point in time to a later one; zero where it is not later.
pub uninterp spec fn nanos_between(earlier: Instant, later: Instant) -> u128;

/// Trusted: `std::time::Instant::saturating_duration_since`, its result as whole nanoseconds.
/// That is a matter of the two points in time alone, and has a name here; claimed of it is that
/// a span of time is no longer than the longest one.
#[verifier::external_body]
fn nanos_since(earlier: Instant, later: Instant) -> (r: u128)
    ensures
        r == nanos_between(earlier, later),
        r <= MAX_SPAN,
{
    later.saturating_duration_since(earlier).as_nanos()
}

/// A clock that counts nanoseconds from the moment it was started.
#[derive(Clone, Copy, Debug)]
pub struct Clock {
    origin: Instant,
}

impl Clock {
    /// The moment at which the clock was started.
    pub closed spec fn origin(&self) -> Instant {
        self.origin
    }

    /// Whether the clock shows `now` at some moment.
    pub open spec fn shows(&self, now: u128) -> bool {
        now <= MAX_SPAN && exists|moment: Instant|
            now == #[trigger] nanos_between(self.origin(), moment)
    }

    /// Starts a clock now. Which moment that is, nothing says.
    pub fn start() -> (r: Self) {
        Clock::starting_at(instant_now())
    }

    /// A clock that was started at `origin`.
    pub fn starting_at(origin: Instant) -> (r: Self)
        ensures
            r.origin() == origin,
    {
        Clock { origin }
    }

    /// What the clock shows now. Which of its moments that is, nothing says.
    pub fn read(&self) -> (r: u128)
        ensures
            self.shows(r),
    {
        let now = instant_now();
        self.read_at(now)
    }

    /// What the clock shows at `now`: the time from its start.
    pub fn read_at(&self, now: Instant) -> (r: u128)
        ensures
            r == nanos_between(self.origin(), now),
            r <= MAX_SPAN,
    {
        nanos_since(self.origin, now)
    }
}

/// How long ago `earlier` was at `now`; zero where `earlier` has not come yet.
pub open spec fn since(now: u128, earlier: u128) -> u128 {
    if now >= earlier {
        (now - earlier) as u128
    } else {
        0
    }
}

/// How long ago `earlier` was at `now`; zero where `earlier` has not come yet.
pub fn span_since(now: u128, earlier: u128) -> (r: u128)
    ensures
        r == since(now, earlier),
{
    if now >= earlier {
        now - earlier
    } else {
        0
    }
}

} // verus!
