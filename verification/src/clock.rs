use vstd::prelude::*;
use std::time::Instant;

verus! {

#[verifier::external_type_specification]
#[verifier::external_body]
pub struct ExInstant(Instant);

/// Trusted: `std::time::Instant::now`. Nothing is stated of the reading.
#[verifier::external_body]
pub(crate) fn clock_now() -> (r: Instant) {
    Instant::now()
}

/// Trusted: `Instant::elapsed` on `start`, in whole milliseconds. Nothing is stated of the
/// value: it depends on the clock.
#[verifier::external_body]
pub(crate) fn millis_since(start: &Instant) -> (r: u64) {
    start.elapsed().as_millis() as u64
}

} // verus!
