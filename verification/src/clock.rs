//! The machine's clock. Nothing is known of what it says.

use std::time::SystemTime;
use std::time::UNIX_EPOCH;
use vstd::prelude::*;

verus! {

/// `SystemTime::now`, in whole milliseconds since the Unix epoch; none where
/// the clock stands before it.
#[verifier::external_body]
pub(crate) fn system_millis() -> Option<u64> {
    match SystemTime::now().duration_since(UNIX_EPOCH) {
        Ok(elapsed) => Some(elapsed.as_millis() as u64),
        Err(_) => None,
    }
}

/// `SystemTime::now`, read by `DateTime::from_timestamp` and
/// `DateTime::timestamp` of the crate chrono, in whole seconds since the Unix
/// epoch; none where the clock stands before the epoch or beyond the years
/// that chrono can name. Neither call panics.
#[verifier::external_body]
pub(crate) fn system_seconds() -> Option<i64> {
    match SystemTime::now().duration_since(UNIX_EPOCH) {
        Ok(elapsed) => chrono::DateTime::from_timestamp(
            elapsed.as_secs() as i64,
            elapsed.subsec_nanos(),
        ).map(|time| time.timestamp()),
        Err(_) => None,
    }
}

/// The time in milliseconds since the Unix epoch, or zero where the clock
/// gives none.
pub(crate) fn unix_millis() -> u64 {
    match system_millis() {
        Some(millis) => millis,
        None => 0,
    }
}

/// The time in seconds since the Unix epoch, or zero where the clock gives
/// none.
pub(crate) fn unix_seconds() -> i64 {
    match system_seconds() {
        Some(seconds) => seconds,
        None => 0,
    }
}

} // verus!
