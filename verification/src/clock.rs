use std::time::{Duration, SystemTime, SystemTimeError, UNIX_EPOCH};
use vstd::prelude::*;

use crate::error::CommunicationError;

verus! {

/// `std::time::SystemTime`, a reading of the system clock.
#[verifier::external_type_specification]
#[verifier::external_body]
pub struct ExSystemTime(SystemTime);

/// `std::time::SystemTimeError`, which says that one reading lies before another.
#[verifier::external_type_specification]
#[verifier::external_body]
pub struct ExSystemTimeError(SystemTimeError);

/// What `SystemTime::duration_since` gives for the Unix epoch: the time from the epoch to
/// `time`, or nothing where `time` lies before the epoch.
pub uninterp spec fn since_epoch(time: SystemTime) -> Option<Duration>;

/// What `Duration::as_millis` gives: the number of whole milliseconds in `duration`.
pub uninterp spec fn whole_millis(duration: Duration) -> u128;

/// Calls `SystemTime::now`. The reading depends on the machine's clock, so nothing is claimed
/// of it.
#[verifier::external_body]
fn system_time_now() -> (time: SystemTime) {
    SystemTime::now()
}

/// Calls `SystemTime::duration_since` for the Unix epoch. The outcome is a function of the
/// reading, under the name `since_epoch`; what the error holds is not stated.
#[verifier::external_body]
fn duration_since_epoch(time: SystemTime) -> (r: Result<Duration, SystemTimeError>)
    ensures
        match r {
            Ok(d) => since_epoch(time) == Some(d),
            Err(_) => since_epoch(time) is None,
        },
{
    time.duration_since(UNIX_EPOCH)
}

/// Calls `Duration::as_millis`, whose result has the name `whole_millis`.
#[verifier::external_body]
pub(crate) fn duration_as_millis(duration: Duration) -> (r: u128)
    ensures
        r == whole_millis(duration),
{
    duration.as_millis()
}

/// The low 64 bits of a number of milliseconds.
pub open spec fn spec_low_bits(millis: u128) -> u64 {
    (millis % 0x1_0000_0000_0000_0000) as u64
}

/// The low 64 bits of a number of milliseconds.
pub fn low_bits(millis: u128) -> (r: u64)
    ensures
        r == spec_low_bits(millis),
{
    assert(millis as u64 == (millis % 0x1_0000_0000_0000_0000) as u64) by (bit_vector);
    millis as u64
}

/// The timestamp for a number of milliseconds since the epoch, `None` standing for a clock
/// before the epoch: its low 64 bits, or the error.
pub open spec fn spec_timestamp(millis: Option<u128>) -> Result<u64, CommunicationError> {
    match millis {
        Some(m) => Ok(spec_low_bits(m)),
        None => Err(CommunicationError::TimeError),
    }
}

/// Turns a number of milliseconds since the epoch into a timestamp, keeping the low 64 bits.
pub fn timestamp(millis: Option<u128>) -> (r: Result<u64, CommunicationError>)
    ensures
        r == spec_timestamp(millis),
{
    match millis {
        Some(m) => Ok(low_bits(m)),
        None => Err(CommunicationError::TimeError),
    }
}

/// The timestamp that the clock reading `time` stands for.
pub open spec fn timestamp_at(time: SystemTime) -> Result<u64, CommunicationError> {
    spec_timestamp(
        match since_epoch(time) {
            Some(d) => Some(whole_millis(d)),
            None => None,
        },
    )
}

/// Whether `now` can come from a reading of the clock.
pub open spec fn is_clock_reading(now: Result<u64, CommunicationError>) -> bool {
    exists|time: SystemTime| now == #[trigger] timestamp_at(time)
}

/// The current time in milliseconds since the Unix epoch.
pub fn now_as_millis() -> (r: Result<u64, CommunicationError>)
    ensures
        is_clock_reading(r),
{
    let now = system_time_now();
    let millis = match duration_since_epoch(now) {
        Ok(elapsed) => Some(duration_as_millis(elapsed)),
        Err(_) => None,
    };
    let r = timestamp(millis);
    assert(r == timestamp_at(now));
    r
}

} // verus!
