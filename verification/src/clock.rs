//! The wall clock, read as milliseconds since the Unix epoch.

use std::time::{Duration, SystemTime, SystemTimeError};
use vstd::prelude::*;

verus! {

/// `std::time::SystemTime`, an instant of the system clock. It is carried,
/// never looked into.
#[verifier::external_type_specification]
#[verifier::external_body]
pub struct ExSystemTime(SystemTime);

/// `std::time::SystemTimeError`, the error of `SystemTime::duration_since`.
/// It is carried, never looked into.
#[verifier::external_type_specification]
#[verifier::external_body]
pub struct ExSystemTimeError(SystemTimeError);

/// `SystemTime::now` reads the system clock. Nothing is claimed of the
/// instant it returns.
pub assume_specification[ SystemTime::now ]() -> (instant: SystemTime);

/// `Duration::as_millis` gives the whole milliseconds in a duration. Nothing
/// is claimed of the number.
pub assume_specification[ Duration::as_millis ](duration: &Duration) -> (millis: u128);

/// `SystemTime::duration_since`, measured from `UNIX_EPOCH`: the time from
/// the epoch to `instant`, or an error where `instant` lies before the
/// epoch. Nothing is claimed of which it is, nor of the duration.
#[verifier::external_body]
fn since_epoch(instant: &SystemTime) -> (elapsed: Result<Duration, SystemTimeError>) {
    instant.duration_since(std::time::UNIX_EPOCH)
}

/// The current instant in milliseconds since the Unix epoch. A clock that
/// reads earlier than the epoch counts as standing at the epoch.
pub(crate) fn unix_millis() -> u128 {
    let instant = SystemTime::now();
    match since_epoch(&instant) {
        Ok(elapsed) => elapsed.as_millis(),
        Err(_) => 0,
    }
}

} // verus!
