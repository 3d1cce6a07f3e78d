//! Clocks.  Their readings depend on when they are taken, so nothing is
//! stated of a reading: the logic that uses one takes it as an argument.
use vstd::prelude::*;
use std::time::{Instant, SystemTime};

verus! {

#[verifier::external_type_specification]
#[verifier::external_body]
pub struct ExSystemTime(SystemTime);

#[verifier::external_type_specification]
#[verifier::external_body]
pub struct ExInstant(Instant);

/// `SystemTime::now`: the current wall-clock time.  Nothing is stated of
/// the reading.
#[verifier::external_body]
fn system_time_now() -> SystemTime {
    SystemTime::now()
}

/// `SystemTime::duration_since(UNIX_EPOCH)`, in nanoseconds, or nothing
/// for a time before the epoch.  Nothing is stated of the value.
#[verifier::external_body]
fn nanos_since_unix_epoch(t: &SystemTime) -> Option<u128> {
    match t.duration_since(std::time::UNIX_EPOCH) {
        Ok(d) => Some(d.as_nanos()),
        Err(_) => None,
    }
}

/// The nanoseconds since the Unix epoch of a reading: a reading before the
/// epoch counts as the epoch itself.
pub open spec fn since_epoch_or_zero(reading: Option<u128>) -> u128 {
    match reading {
        Some(n) => n,
        None => 0,
    }
}

fn or_epoch(reading: Option<u128>) -> (n: u128)
    ensures
        n == since_epoch_or_zero(reading),
{
    match reading {
        Some(n) => n,
        None => 0,
    }
}

/// Nanoseconds since the Unix epoch, read from the system clock (zero for
/// a clock set before the epoch).
pub fn unix_time_nanos() -> u128 {
    let now = system_time_now();
    or_epoch(nanos_since_unix_epoch(&now))
}

/// `Instant::now`: a reading of the monotonic clock.  Nothing is stated of
/// it.
#[verifier::external_body]
pub(crate) fn instant_now() -> Instant {
    Instant::now()
}

/// `Instant::elapsed`, in nanoseconds.  Nothing is stated of the value.
#[verifier::external_body]
fn nanos_elapsed(origin: &Instant) -> u128 {
    origin.elapsed().as_nanos()
}

/// The nanoseconds elapsed since `origin`, saturated at `u64::MAX`.
pub(crate) fn nanos_elapsed_since(origin: &Instant) -> u64 {
    let e = nanos_elapsed(origin);
    if e > u64::MAX as u128 {
        u64::MAX
    } else {
        e as u64
    }
}

} // verus!
