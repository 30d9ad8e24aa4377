use vstd::prelude::*;
use std::time::{Duration, Instant};

verus! {

/// std's monotonic clock reading, held opaque.
#[verifier::external_type_specification]
#[verifier::external_body]
pub struct ExInstant(Instant);

/// Relies on `Instant::now`: the current reading of the monotonic clock.
#[verifier::external_body]
pub(crate) fn clock_now() -> (r: Instant) {
    Instant::now()
}

/// Relies on `Instant::elapsed`: the time passed since `start`.
#[verifier::external_body]
pub(crate) fn elapsed_since(start: &Instant) -> (r: Duration) {
    start.elapsed()
}

/// Relies on `Duration::as_millis`: the whole milliseconds of `d`.
#[verifier::external_body]
pub(crate) fn whole_millis(d: &Duration) -> (r: u128) {
    d.as_millis()
}

/// Milliseconds since `start`, held at `u64::MAX` where they would not fit.
pub fn millis_since(start: &Instant) -> (r: u64) {
    let d = elapsed_since(start);
    let m = whole_millis(&d);
    if m > u64::MAX as u128 {
        u64::MAX
    } else {
        m as u64
    }
}

} // verus!
