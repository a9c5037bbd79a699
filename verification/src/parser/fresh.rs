//! Stamps for fresh temporary names: the nanoseconds since the Unix epoch.
use vstd::prelude::*;

verus! {

#[verifier::external_type_specification]
#[verifier::external_body]
pub struct ExSystemTime(std::time::SystemTime);

/// Calls `std::time::SystemTime::now`; nothing is claimed of the time it reads.
#[verifier::external_body]
fn system_time_now() -> std::time::SystemTime {
    std::time::SystemTime::now()
}

/// Calls `SystemTime::duration_since(UNIX_EPOCH)`; `None` where the time lies before
/// the epoch. Nothing is claimed of the duration, which depends on the clock.
#[verifier::external_body]
fn duration_since_epoch(t: &std::time::SystemTime) -> Option<std::time::Duration> {
    t.duration_since(std::time::UNIX_EPOCH).ok()
}

/// Calls `Duration::as_nanos`; nothing is claimed of the value.
#[verifier::external_body]
fn duration_nanos(d: &std::time::Duration) -> u128 {
    d.as_nanos()
}

/// The current time in nanoseconds since the Unix epoch, used to make temporary names
/// distinct (0 where the clock reads a time before the epoch).
pub fn unixtime_nano() -> u128 {
    let now = system_time_now();
    match duration_since_epoch(&now) {
        Some(d) => duration_nanos(&d),
        None => 0,
    }
}

} // verus!
