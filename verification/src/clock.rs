//! The monotonic clock that admissions are stamped with.

use std::time::Duration;
use std::time::Instant;
use vstd::prelude::*;

verus! {

#[verifier::external_type_specification]
#[verifier::external_body]
pub struct ExInstant(std::time::Instant);

/// Nanoseconds in one millisecond.
pub const NANOS_PER_MILLI: u128 = 1_000_000;

/// `std::time::Instant::now`: the current reading of the monotonic clock.
/// Nothing is claimed of the reading.
#[verifier::external_body]
fn instant_now() -> Instant {
    Instant::now()
}

/// `std::time::Instant::saturating_duration_since`: the time from `earlier`
/// to `later`, which is no time where `earlier` is the later of the two.
/// Nothing is claimed of it.
#[verifier::external_body]
fn instant_since(later: &Instant, earlier: &Instant) -> Duration {
    later.saturating_duration_since(*earlier)
}

/// `std::time::Duration::as_nanos`: the whole span in nanoseconds.
/// Nothing is claimed of the number.
#[verifier::external_body]
fn duration_nanos(span: &Duration) -> u128 {
    span.as_nanos()
}

/// A monotonic clock that counts nanoseconds from the moment it was started.
pub struct Clock {
    origin: Instant,
}

impl Clock {
    /// Starts a clock at the present moment.
    pub fn start() -> Clock {
        Clock { origin: instant_now() }
    }

    /// Nanoseconds since the clock was started.
    pub fn now(&self) -> u128 {
        let present = instant_now();
        let span = instant_since(&present, &self.origin);
        duration_nanos(&span)
    }
}

} // verus!
