//! Host clock access: an opaque monotonic timer and an epoch timestamp for
//! inode times. Nothing can be promised about clock readings, so these
//! carry no postconditions.

use vstd::prelude::*;

verus! {

#[verifier::external_type_specification]
#[verifier::external_body]
pub struct ExInstant(std::time::Instant);

/// Relies on `std::time::Instant::now`: a fresh reading of the monotonic
/// clock, usable only as the start point handed back to `readtimer`.
#[verifier::external_body]
pub fn starttimer() -> std::time::Instant {
    std::time::Instant::now()
}

/// Relies on `std::time::Instant::elapsed`: the time that passed since
/// `now` was taken. Clock-dependent, so nothing is stated of the value.
#[verifier::external_body]
pub fn readtimer(now: std::time::Instant) -> core::time::Duration {
    now.elapsed()
}

/// Relies on `std::time::SystemTime::now` and `duration_since`: whole
/// seconds since the Unix epoch, or zero if the clock sits before it.
/// Clock-dependent, so nothing is stated of the value.
#[verifier::external_body]
pub fn timestamp() -> u64 {
    match std::time::SystemTime::now().duration_since(std::time::SystemTime::UNIX_EPOCH) {
        Ok(d) => d.as_secs(),
        Err(_) => 0,
    }
}

} // verus!
