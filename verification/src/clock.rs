//! The time of day.

use vstd::prelude::*;

verus! {

#[verifier::external_type_specification]
#[verifier::external_body]
pub struct ExSystemTime(std::time::SystemTime);

/// `std::time::SystemTime::now`: the system's clock. Nothing is promised of what it shows.
pub assume_specification[ std::time::SystemTime::now ]() -> std::time::SystemTime
;

/// `std::time::SystemTime::duration_since` the Unix epoch, in whole seconds: none where the time
/// lies before the epoch. Nothing is promised of the number, since a system time is opaque.
#[verifier::external_body]
fn seconds_since_epoch(time: &std::time::SystemTime) -> (r: Option<u64>)
{
    time.duration_since(std::time::UNIX_EPOCH).ok().map(|elapsed| elapsed.as_secs())
}

/// Seconds since the Unix epoch, or zero where the clock shows an earlier time.
pub fn seconds_or_zero(elapsed: Option<u64>) -> (r: u64)
    ensures
        r == match elapsed {
            Some(seconds) => seconds,
            None => 0,
        },
{
    match elapsed {
        Some(seconds) => seconds,
        None => 0,
    }
}

/// The time in seconds since the Unix epoch. What it is depends on the clock alone, so no clause
/// speaks of it.
pub fn unix_time() -> (r: u64)
{
    let now = std::time::SystemTime::now();
    seconds_or_zero(seconds_since_epoch(&now))
}

} // verus!
