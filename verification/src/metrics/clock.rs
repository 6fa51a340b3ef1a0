//! The monotonic clock that timers read.
use vstd::prelude::*;
use std::time::{Duration, Instant};

verus! {

#[verifier::external_type_specification]
#[verifier::external_body]
pub struct ExInstant(std::time::Instant);

/// `Duration::clone`, which copies the value; a `Duration` is opaque here,
/// so the contract claims nothing of the copy.
pub assume_specification[ <Duration as Clone>::clone ](d: &Duration) -> (r: Duration);

/// Calls `Instant::now`. What comes back depends on the moment of the call,
/// so the contract claims nothing of it.
#[verifier::external_body]
pub(crate) fn instant_now() -> (r: Instant) {
    Instant::now()
}

/// Calls `Instant::elapsed`: the time passed since `start`. It depends on the
/// moment of the call, so the contract claims nothing of it.
#[verifier::external_body]
pub(crate) fn elapsed_since(start: &Instant) -> (r: Duration) {
    start.elapsed()
}

/// Calls `Duration::from_secs`. A `Duration` is opaque here, so the contract
/// claims nothing of the result; the number of seconds is handed over unchanged.
#[verifier::external_body]
pub(crate) fn duration_from_secs(secs: u64) -> (r: Duration) {
    Duration::from_secs(secs)
}

} // verus!
