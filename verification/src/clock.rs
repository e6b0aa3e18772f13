//! The wall clock.

use std::time::{Duration, SystemTime};
use vstd::prelude::*;

verus! {

#[verifier::external_type_specification]
#[verifier::external_body]
pub struct ExSystemTime(SystemTime);

/// `std::time::SystemTime::now`. Nothing is claimed of the result: it is
/// whatever the machine's clock says.
#[verifier::external_body]
fn wall_clock() -> SystemTime {
    SystemTime::now()
}

/// `std::time::SystemTime::duration_since` with the Unix epoch: how long ago it
/// was, or nothing for a time before it. Nothing is claimed of the result: the
/// time is whatever the machine's clock said.
#[verifier::external_body]
fn since_epoch(t: SystemTime) -> Option<Duration> {
    t.duration_since(std::time::UNIX_EPOCH).ok()
}

/// `std::time::Duration::as_nanos`. Nothing is claimed of the result: the
/// duration is whatever the machine's clock said.
#[verifier::external_body]
fn nanos_of(d: Duration) -> u128 {
    d.as_nanos()
}

/// A time in nanoseconds since the Unix epoch as it is stored: zero for a time
/// before the epoch, and the largest number for one that does not fit.
pub open spec fn stored_nanos(elapsed: Option<u128>) -> u64 {
    match elapsed {
        None => 0,
        Some(n) => if n <= u64::MAX {
            n as u64
        } else {
            u64::MAX
        },
    }
}

/// A time in nanoseconds since the Unix epoch as it is stored: zero for a time
/// before the epoch, and the largest number for one that does not fit.
///
/// A time that does not fit is not cut down to a small number, so that it still
/// comes after every time stored before.
pub fn saturated_nanos(elapsed: Option<u128>) -> (r: u64)
    ensures
        r == stored_nanos(elapsed),
{
    match elapsed {
        None => 0,
        Some(n) => if n <= u64::MAX as u128 {
            n as u64
        } else {
            u64::MAX
        },
    }
}

/// Later times are stored as numbers no smaller.
pub proof fn lemma_stored_nanos_monotone(a: u128, b: u128)
    requires
        a <= b,
    ensures
        stored_nanos(Some(a)) <= stored_nanos(Some(b)),
        stored_nanos(None) <= stored_nanos(Some(a)),
{
}

/// The time now in nanoseconds since the Unix epoch, as it is stored.
pub fn now_nanos_u64() -> (r: u64)
    ensures
        exists|elapsed: Option<u128>| r == #[trigger] stored_nanos(elapsed),
{
    let elapsed: Option<u128> = match since_epoch(wall_clock()) {
        None => None,
        Some(d) => Some(nanos_of(d)),
    };
    assert(stored_nanos(elapsed) == stored_nanos(elapsed));
    saturated_nanos(elapsed)
}

} // verus!
