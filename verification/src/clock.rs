//! Reading the clocks: the system clock as nanoseconds since the Unix epoch,
//! and the monotonic clock as nanoseconds since an earlier instant.
use vstd::prelude::*;

verus! {

/// The largest number of nanoseconds a `Duration` can hold: `u64::MAX`
/// seconds and 999_999_999 nanoseconds.
pub const MAX_CLOCK_NANOS: u128 = 18446744073709551615999999999u128;

/// `std::time::SystemTime::now`, as nanoseconds since the Unix epoch;
/// `None` when the clock reads a time before the epoch. Nothing is promised of
/// the reading itself, only that it fits in a `Duration`.
#[verifier::external_body]
pub(crate) fn system_time_nanos() -> (r: Option<u128>)
    ensures
        r matches Some(n) ==> n <= MAX_CLOCK_NANOS,
{
    std::time::SystemTime::now().duration_since(std::time::UNIX_EPOCH).ok().map(|d| d.as_nanos())
}

#[verifier::external_type_specification]
#[verifier::external_body]
pub struct ExInstant(std::time::Instant);

/// `std::time::Instant::now`: a reading of the monotonic clock. Nothing is
/// promised of it.
#[verifier::external_body]
pub(crate) fn instant_now() -> std::time::Instant {
    std::time::Instant::now()
}

/// `std::time::Instant::elapsed` of `start`, as nanoseconds: the time on the
/// monotonic clock since `start` (zero if `start` is later). Nothing is
/// promised of the reading itself, only that it fits in a `Duration`.
#[verifier::external_body]
pub(crate) fn nanos_since(start: &std::time::Instant) -> (r: u128)
    ensures
        r <= MAX_CLOCK_NANOS,
{
    start.elapsed().as_nanos()
}

} // verus!
