//! The host's wall clock, as far as the library relies on it.
//!
//! Nothing in this file is proved: these are the standard library's clock
//! functions, declared so that verified code can call them. None of them
//! promises anything about what it returns, so the callers are verified for
//! every possible reading.

use std::time::{Duration, SystemTime, SystemTimeError};
use vstd::prelude::*;

verus! {

/// `std::time::SystemTime`, carried through as an opaque value.
#[verifier::external_type_specification]
#[verifier::external_body]
pub struct ExSystemTime(SystemTime);

/// `std::time::SystemTimeError`, carried through as an opaque value.
#[verifier::external_type_specification]
#[verifier::external_body]
pub struct ExSystemTimeError(SystemTimeError);

/// `SystemTime::now` reads the host clock. Nothing is claimed of the value.
pub assume_specification[ SystemTime::now ]() -> (now: SystemTime)
;

/// `Duration::as_secs` gives the whole seconds of a duration. Nothing is
/// claimed of the number.
pub assume_specification[ Duration::as_secs ](duration: &Duration) -> (seconds: u64)
;

/// Calls `SystemTime::duration_since` with `std::time::UNIX_EPOCH` as the
/// earlier instant. It returns the time elapsed from the epoch to `time`, or
/// an error where `time` lies before the epoch. Nothing is claimed of which
/// of the two comes back.
#[verifier::external_body]
pub(crate) fn duration_since_epoch(time: &SystemTime) -> (elapsed: Result<
    Duration,
    SystemTimeError,
>) {
    time.duration_since(std::time::UNIX_EPOCH)
}

} // verus!
