//! Trusted access to the monotonic clock that bounds a scheduler tick.
//!
//! Nothing is assumed about the values read: every contract in the crate
//! holds whatever the clock returns.  The budget check in
//! [`crate::scheduler::Scheduler::tick`] is therefore a best-effort cutoff,
//! as a wall-clock bound must be.

use vstd::prelude::*;

verus! {

#[verifier::external_type_specification]
#[verifier::external_body]
pub struct ExInstant(std::time::Instant);

/// Relies on std's `Instant::now`; nothing is assumed of the value.
#[verifier::external_body]
pub(crate) fn clock_now() -> std::time::Instant {
    std::time::Instant::now()
}

/// Relies on std's `Instant::elapsed`: milliseconds since `start`, truncated
/// to 64 bits; nothing is assumed of the value.
#[verifier::external_body]
pub(crate) fn millis_since(start: &std::time::Instant) -> u64 {
    start.elapsed().as_millis() as u64
}

} // verus!
