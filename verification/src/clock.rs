//! The time of day, and lengths of time, in milliseconds.
use std::time::{Duration, SystemTime, SystemTimeError};
use vstd::prelude::*;

verus! {

/// A reading of the system clock, carried without being looked into.
#[verifier::external_type_specification]
#[verifier::external_body]
pub struct ClockReading(std::time::SystemTime);

/// What std says of a reading before the epoch.
#[verifier::external_type_specification]
#[verifier::external_body]
pub struct ClockError(std::time::SystemTimeError);

/// The number of nanoseconds in a length of time.
pub uninterp spec fn duration_nanos(duration: Duration) -> u128;

/// The number of whole milliseconds in a length of time.
pub open spec fn duration_millis(duration: Duration) -> u128 {
    duration_nanos(duration) / 1_000_000
}

/// How far a reading of the clock is from the start of 1970.
pub uninterp spec fn epoch_distance(time: SystemTime) -> Result<Duration, SystemTimeError>;

/// `Duration::from_millis`: a length of time of exactly that many milliseconds.
#[verifier::external_body]
pub(crate) fn millis(count: u64) -> (duration: Duration)
    ensures
        duration_nanos(duration) == count * 1_000_000,
{
    Duration::from_millis(count)
}

/// `Duration::as_millis`: the number of whole milliseconds.
#[verifier::external_body]
pub(crate) fn as_millis(duration: &Duration) -> (count: u128)
    ensures
        count == duration_millis(*duration),
{
    duration.as_millis()
}

/// `SystemTime::now`. Nothing is said of the reading: it is whatever the clock
/// shows.
#[verifier::external_body]
fn system_time() -> (time: SystemTime) {
    SystemTime::now()
}

/// `SystemTime::duration_since` the start of 1970.
#[verifier::external_body]
fn since_epoch(time: SystemTime) -> (distance: Result<Duration, SystemTimeError>)
    ensures
        distance == epoch_distance(time),
{
    time.duration_since(std::time::UNIX_EPOCH)
}

/// The largest `u64` that is not above a number.
pub open spec fn clamped(count: u128) -> u64 {
    if count > u64::MAX {
        u64::MAX
    } else {
        count as u64
    }
}

/// Fits a number of milliseconds into 64 bits.
pub fn clamp_millis(count: u128) -> (fitted: u64)
    ensures
        fitted == clamped(count),
{
    if count > u64::MAX as u128 {
        u64::MAX
    } else {
        count as u64
    }
}

/// The milliseconds from the start of 1970 to a reading of the clock, and zero
/// for a reading before that.
pub open spec fn reading_ms(time: SystemTime) -> u64 {
    match epoch_distance(time) {
        Ok(distance) => clamped(duration_millis(distance)),
        Err(_) => 0,
    }
}

/// Turns a reading of the clock into milliseconds.
pub fn millis_of(time: SystemTime) -> (ms: u64)
    ensures
        ms == reading_ms(time),
{
    match since_epoch(time) {
        Ok(distance) => clamp_millis(as_millis(&distance)),
        Err(_) => 0,
    }
}

/// Whether a number of milliseconds is one that the clock may show.
pub open spec fn is_reading(ms: u64) -> bool {
    exists|time: SystemTime| ms == #[trigger] reading_ms(time)
}

/// The current time in milliseconds since the start of 1970.
#[must_use]
pub fn now_ms() -> (ms: u64)
    ensures
        is_reading(ms),
{
    millis_of(system_time())
}

} // verus!
