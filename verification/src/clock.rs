//! Readings of the system clock as whole nanoseconds or milliseconds since
//! the Unix epoch.

use vstd::prelude::*;
use std::time::{Duration, SystemTime, SystemTimeError};

verus! {

#[verifier::external_type_specification]
#[verifier::external_body]
pub struct ExSystemTime(SystemTime);

#[verifier::external_type_specification]
#[verifier::external_body]
pub struct ExSystemTimeError(SystemTimeError);

/// `SystemTime::now()`: the current reading of the system clock. Nothing is
/// stated of it: it depends on the clock.
#[verifier::external_body]
fn system_now() -> SystemTime {
    SystemTime::now()
}

/// `t.duration_since(UNIX_EPOCH)`: how long after the Unix epoch `t` lies,
/// or an error when it lies before. Nothing is stated of the value.
#[verifier::external_body]
fn since_epoch(t: &SystemTime) -> Result<Duration, SystemTimeError> {
    t.duration_since(std::time::UNIX_EPOCH)
}

/// `Duration::as_nanos`: the whole nanoseconds of `d`. Nothing is stated of
/// the value.
#[verifier::external_body]
fn duration_nanos(d: &Duration) -> u128 {
    d.as_nanos()
}

/// The whole nanoseconds of `r`: those of the duration, or zero for the
/// error given when the clock lies before the epoch.
fn nanos_or_zero(r: Result<Duration, SystemTimeError>) -> (n: u128)
    ensures
        r is Err ==> n == 0,
{
    match r {
        Ok(d) => duration_nanos(&d),
        Err(_) => 0,
    }
}

/// `n` nanoseconds as a `u64`, saturating at `u64::MAX`.
pub fn capped_nanos(n: u128) -> (r: u64)
    ensures
        r == (if n > u64::MAX {
            u64::MAX
        } else {
            n as u64
        }),
{
    if n > 0xFFFF_FFFF_FFFF_FFFF {
        u64::MAX
    } else {
        n as u64
    }
}

/// The whole milliseconds in `n` nanoseconds, keeping the low 64 bits as
/// `as u64` does.
pub fn millis_of_nanos(n: u128) -> (r: u64)
    ensures
        r == (n / 1_000_000) as u64,
{
    let ms: u128 = n / 1_000_000;
    ms as u64
}

/// Nanoseconds since the Unix epoch by the system clock (`capped_nanos` of
/// the reading, zero before the epoch). The reading depends on the clock,
/// so nothing is stated of the value.
pub fn now_nanos() -> u64 {
    let now = system_now();
    capped_nanos(nanos_or_zero(since_epoch(&now)))
}

/// Whole milliseconds since the Unix epoch by the system clock
/// (`millis_of_nanos` of the reading, zero before the epoch). The reading
/// depends on the clock, so nothing is stated of the value.
pub fn now_millis() -> u64 {
    let now = system_now();
    millis_of_nanos(nanos_or_zero(since_epoch(&now)))
}

} // verus!
