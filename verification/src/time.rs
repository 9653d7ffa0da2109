//! Clock readings. What they return depends on when they are called, so
//! their contracts state nothing of the values.

use vstd::prelude::*;

verus! {

/// Declares `std::time::Instant` to Verus as an opaque type.
#[verifier::external_type_specification]
#[verifier::external_body]
pub struct ExInstant(std::time::Instant);

/// Calls `Instant::now`. Nothing is claimed of the reading.
#[verifier::external_body]
pub(crate) fn now() -> (r: std::time::Instant)
{
    std::time::Instant::now()
}

/// Calls `Instant::elapsed` and `Duration::as_nanos`: the nanoseconds
/// passed since `start`. Nothing is claimed of the reading, which depends
/// on the clock.
#[verifier::external_body]
pub(crate) fn elapsed_nanos(start: &std::time::Instant) -> (r: u128)
{
    start.elapsed().as_nanos()
}

/// Calls `Instant::elapsed`: the time passed since `start`. Nothing is
/// claimed of it.
#[verifier::external_body]
pub(crate) fn elapsed(start: &std::time::Instant) -> (r: std::time::Duration)
{
    start.elapsed()
}

/// Calls `SystemTime::now().duration_since(UNIX_EPOCH)`: the Unix time in
/// seconds, or the clock's error message when the clock is before 1970.
/// Nothing is claimed of the reading.
#[verifier::external_body]
pub(crate) fn unix_now_secs() -> (r: core::result::Result<u64, String>)
{
    match std::time::SystemTime::now().duration_since(std::time::UNIX_EPOCH) {
        Ok(d) => Ok(d.as_secs()),
        Err(e) => Err(e.to_string()),
    }
}

} // verus!
