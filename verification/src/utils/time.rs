//! The clock.

use vstd::prelude::*;

verus! {

/// The system's clock read into a `chrono::DateTime<chrono::Utc>`, as
/// seconds since the beginning of 1970; a clock that is set before that
/// gives a negative number. What the clock shows is not a matter of the
/// arguments, so nothing is said of it.
#[verifier::external_body]
pub(crate) fn clock_seconds() -> (seconds: i64) {
    chrono::DateTime::<chrono::Utc>::from(std::time::SystemTime::now()).timestamp()
}

/// The time now, in seconds since the beginning of 1970; zero where the
/// clock is set before that.
pub fn now() -> (seconds: u64) {
    seconds_since_epoch(clock_seconds())
}

/// A time stamp of the clock as seconds since the beginning of 1970: the
/// time stamp itself, and zero for one before that.
pub fn seconds_since_epoch(timestamp: i64) -> (seconds: u64)
    ensures
        seconds == if timestamp < 0 {
            0
        } else {
            timestamp
        },
{
    if timestamp < 0 {
        0
    } else {
        timestamp as u64
    }
}

} // verus!
