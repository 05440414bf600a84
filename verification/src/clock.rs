//! The wall clock.

use vstd::prelude::*;

verus! {

/// `std::time::SystemTime`, a reading of the system's clock, carried as it is.
#[verifier::external_type_specification]
#[verifier::external_body]
pub struct ExSystemTime(std::time::SystemTime);

/// `std::time::SystemTimeError`, the failure of `duration_since`, carried as it is.
#[verifier::external_type_specification]
#[verifier::external_body]
pub struct ExSystemTimeError(std::time::SystemTimeError);

/// `std::time::SystemTime::now`: a reading of the system's clock. Nothing is claimed of it.
#[verifier::external_body]
fn read_clock() -> (reading: std::time::SystemTime) {
    std::time::SystemTime::now()
}

/// `std::time::SystemTime::duration_since` with `UNIX_EPOCH`; fails for a reading before it.
#[verifier::external_body]
fn since_epoch(
    reading: &std::time::SystemTime,
) -> (elapsed: Result<core::time::Duration, std::time::SystemTimeError>)
    ensures
        elapsed == elapsed_since_epoch(*reading),
{
    reading.duration_since(std::time::UNIX_EPOCH)
}

/// `core::time::Duration::as_secs`: the whole seconds that a duration holds.
#[verifier::external_body]
fn whole_seconds(elapsed: &core::time::Duration) -> (seconds: u64)
    ensures
        seconds == seconds_of(*elapsed),
{
    elapsed.as_secs()
}

/// The time now: the whole seconds since the Unix epoch of a reading of the system's clock.
pub fn now_unix() -> (seconds: u64)
    ensures
        exists|reading: std::time::SystemTime| seconds == #[trigger] epoch_seconds(reading),
{
    let reading = read_clock();
    let seconds = seconds_since_epoch(&reading);
    assert(seconds == epoch_seconds(reading));
    seconds
}

/// What `duration_since(UNIX_EPOCH)` gives for a reading of the clock: the time
/// from the epoch to the reading, or the failure of a reading before the epoch.
pub uninterp spec fn elapsed_since_epoch(reading: std::time::SystemTime) -> Result<
    core::time::Duration,
    std::time::SystemTimeError,
>;

/// The whole seconds that a duration holds, what is left of a second dropped.
pub uninterp spec fn seconds_of(elapsed: core::time::Duration) -> u64;

/// A reading of the clock in whole seconds since the Unix epoch. A reading
/// that stands before the epoch counts as the epoch itself.
pub open spec fn epoch_seconds(reading: std::time::SystemTime) -> u64 {
    match elapsed_since_epoch(reading) {
        Ok(elapsed) => seconds_of(elapsed),
        Err(_) => 0,
    }
}

/// The reading in whole seconds since the Unix epoch; 0 for a reading that
/// stands before the epoch.
pub fn seconds_since_epoch(reading: &std::time::SystemTime) -> (seconds: u64)
    ensures
        seconds == epoch_seconds(*reading),
{
    match since_epoch(reading) {
        Ok(elapsed) => whole_seconds(&elapsed),
        Err(_) => 0,
    }
}

} // verus!
