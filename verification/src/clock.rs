//! The wall clock, read through `std::time`.
//!
//! What a clock says depends on when it is asked, so nothing is promised of
//! the values that come back. The arithmetic on them is verified.

use std::time::{Duration, SystemTime};
use vstd::prelude::*;

verus! {

/// `std::time::SystemTime`, a point in time as the system clock measures it.
#[verifier::external_type_specification]
#[verifier::external_body]
pub struct ExSystemTime(SystemTime);

/// `SystemTime::now`: the current time of the system clock.
#[verifier::external_body]
fn system_now() -> (now: SystemTime) {
    SystemTime::now()
}

/// `SystemTime::duration_since` the Unix epoch: how long after the epoch
/// `time` lies, or `None` where it lies before.
#[verifier::external_body]
fn since_unix_epoch(time: &SystemTime) -> (elapsed: Option<Duration>) {
    time.duration_since(std::time::UNIX_EPOCH).ok()
}

/// `Duration::as_nanos`: the whole of `duration` in nanoseconds.
#[verifier::external_body]
fn nanos_of(duration: &Duration) -> (nanos: u128) {
    duration.as_nanos()
}

/// The low 64 bits of a count of nanoseconds.
pub open spec fn low_64_bits(nanos: u128) -> u64 {
    (nanos % 0x1_0000_0000_0000_0000) as u64
}

/// Narrows a count of nanoseconds to 64 bits, which hold some 584 years.
pub fn timestamp_of(nanos: u128) -> (stamp: u64)
    ensures
        stamp == low_64_bits(nanos),
{
    (nanos % 0x1_0000_0000_0000_0000u128) as u64
}

/// The timestamp for a reading of the clock: `None` where the clock stood
/// before the Unix epoch.
pub fn timestamp_of_reading(since_epoch: Option<u128>) -> (stamp: Option<u64>)
    ensures
        stamp == match since_epoch {
            Some(nanos) => Some(low_64_bits(nanos)),
            None => None,
        },
{
    match since_epoch {
        Some(nanos) => Some(timestamp_of(nanos)),
        None => None,
    }
}

/// Nanoseconds since the Unix epoch, as far as 64 bits hold them, or `None`
/// where the system clock stands before the epoch.
pub fn current_time_ns() -> (stamp: Option<u64>) {
    let now = system_now();
    let reading = match since_unix_epoch(&now) {
        Some(elapsed) => Some(nanos_of(&elapsed)),
        None => None,
    };
    timestamp_of_reading(reading)
}

} // verus!
