//! The wall clock, read for the `_updated_at` stamp of updated documents.

use vstd::prelude::*;

use core::time::Duration;
use std::time::SystemTime;

verus! {

#[verifier::external_type_specification]
#[verifier::external_body]
pub struct ExSystemTime(SystemTime);

/// Calls `SystemTime::now`. Nothing is claimed of the time it returns.
#[verifier::external_body]
fn system_time_now() -> SystemTime {
    SystemTime::now()
}

/// Calls `SystemTime::duration_since` with `UNIX_EPOCH`; its error (a clock set
/// before 1970) becomes `None`. Nothing is claimed of the duration.
#[verifier::external_body]
fn duration_since_epoch(t: &SystemTime) -> Option<Duration> {
    match t.duration_since(std::time::UNIX_EPOCH) {
        Ok(d) => Some(d),
        Err(_) => None,
    }
}

/// Calls `Duration::as_millis` and narrows the count to `u64`. Nothing is
/// claimed of the count.
#[verifier::external_body]
fn duration_millis(d: &Duration) -> u64 {
    d.as_millis() as u64
}

/// Milliseconds since the Unix epoch, or 0 when the clock is set before it.
pub(crate) fn now_millis() -> u64 {
    match duration_since_epoch(&system_time_now()) {
        Some(d) => duration_millis(&d),
        None => 0,
    }
}

} // verus!
