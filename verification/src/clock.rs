//! The wall clock, read in whole seconds since the Unix epoch.

use vstd::prelude::*;
use crate::fault::Fault;

verus! {

/// The standard library's wall-clock instant.
#[verifier::external_type_specification]
#[verifier::external_body]
pub struct ExSystemTime(std::time::SystemTime);

/// `SystemTime::now`: the current wall-clock time; nothing is known of it.
#[verifier::external_body]
fn clock_now() -> std::time::SystemTime {
    std::time::SystemTime::now()
}

/// `SystemTime::duration_since(UNIX_EPOCH)`: `None` where the time lies
/// before the epoch; the length depends on the clock reading.
#[verifier::external_body]
fn since_epoch(t: &std::time::SystemTime) -> Option<core::time::Duration> {
    t.duration_since(std::time::UNIX_EPOCH).ok()
}

/// `Duration::as_secs`: the whole seconds of a duration.
#[verifier::external_body]
fn whole_seconds(d: &core::time::Duration) -> u64 {
    d.as_secs()
}

/// The current time in whole seconds since the Unix epoch; the fault
/// `ClockBeforeEpoch` when the clock reads a time before the epoch.
pub fn now_ts() -> (res: Result<u64, Fault>)
    ensures
        res matches Err(f) ==> f == Fault::ClockBeforeEpoch,
{
    let now = clock_now();
    match since_epoch(&now) {
        Some(d) => Ok(whole_seconds(&d)),
        None => Err(Fault::ClockBeforeEpoch),
    }
}

} // verus!
