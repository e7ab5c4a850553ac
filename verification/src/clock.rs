//! The time of day.

use std::time::Duration;
use std::time::SystemTime;
use std::time::UNIX_EPOCH;
use vstd::prelude::*;

verus! {

/// A moment on the clock of the machine.
#[verifier::external_type_specification]
#[verifier::external_body]
pub struct ExSystemTime(SystemTime);

/// Calls `SystemTime::now`, which reads the clock of the machine. Nothing is
/// claimed of the moment.
pub assume_specification[ SystemTime::now ]() -> SystemTime
;

/// Calls `Duration::as_secs`, the whole seconds of a span of time. The span is
/// measured by the clock, so nothing is claimed of the number.
pub assume_specification[ Duration::as_secs ](d: &Duration) -> u64
;

/// Calls `SystemTime::duration_since` for the time since the start of 1970, or
/// nothing for a moment before it. The moment comes from the clock, so nothing
/// is claimed of the span.
#[verifier::external_body]
fn since_epoch(t: SystemTime) -> Option<Duration> {
    t.duration_since(UNIX_EPOCH).ok()
}

/// The timestamp for a number of seconds since the start of 1970; zero for a
/// moment before it.
pub open spec fn timestamp_of(seconds: Option<u64>) -> i64 {
    match seconds {
        Some(s) => s as i64,
        None => 0,
    }
}

/// See [`timestamp_of`].
pub fn timestamp(seconds: Option<u64>) -> (r: i64)
    ensures
        r == timestamp_of(seconds),
{
    match seconds {
        Some(s) => s as i64,
        None => 0,
    }
}

/// The current time in seconds since the start of 1970.
pub fn now() -> (r: i64)
    ensures
        exists|seconds: Option<u64>| r == #[trigger] timestamp_of(seconds),
{
    let seconds = match since_epoch(SystemTime::now()) {
        Some(d) => Some(d.as_secs()),
        None => None,
    };
    timestamp(seconds)
}

} // verus!
