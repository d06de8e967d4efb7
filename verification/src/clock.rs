//! The wall clock, as far as a query reads it.

use vstd::prelude::*;

verus! {

/// `std::time::Instant`, a reading of the monotonic clock. Nothing is known
/// of what a value holds.
#[verifier::external_type_specification]
#[verifier::external_body]
pub struct ExInstant(std::time::Instant);

/// `std::time::Instant::now` reads the monotonic clock. Nothing is claimed of
/// the reading.
pub assume_specification[ std::time::Instant::now ]() -> (now: std::time::Instant);

/// `std::time::Instant::elapsed` gives the time that has passed since the
/// reading was taken. Nothing is claimed of the amount.
pub assume_specification[ std::time::Instant::elapsed ](start: &std::time::Instant) -> (elapsed:
    std::time::Duration);

/// `std::time::SystemTime`, a reading of the system clock. Nothing is known
/// of what a value holds.
#[verifier::external_type_specification]
#[verifier::external_body]
pub struct ExSystemTime(std::time::SystemTime);

/// `std::time::SystemTime::now` reads the system clock. Nothing is claimed
/// of the reading.
pub assume_specification[ std::time::SystemTime::now ]() -> (now: std::time::SystemTime);

/// `std::time::Duration::as_millis` gives the whole milliseconds of the
/// duration. Nothing is claimed of the number.
pub assume_specification[ std::time::Duration::as_millis ](duration: &std::time::Duration) -> (ms:
    u128);

/// `std::time::SystemTime::duration_since` with `UNIX_EPOCH` as the earlier
/// time: how long after the epoch the reading was taken, or `None` where it
/// was taken before the epoch.
#[verifier::external_body]
fn since_unix_epoch(reading: &std::time::SystemTime) -> (elapsed: Option<std::time::Duration>) {
    reading.duration_since(std::time::UNIX_EPOCH).ok()
}

/// The low 64 bits of a count of milliseconds, read as a signed number.
pub open spec fn id_of_millis(ms: u128) -> i64 {
    ms as i64
}

/// The identifier that a count of milliseconds since the epoch stands for.
pub fn unique_id_from_millis(ms: u128) -> (id: i64)
    ensures
        id == id_of_millis(ms),
{
    #[verifier::truncate]
    (ms as i64)
}

/// The identifier that a reading of the clock stands for: that of its
/// milliseconds since the epoch, or zero where it was taken before the epoch.
pub open spec fn id_of_reading(since_epoch_ms: Option<u128>) -> i64 {
    match since_epoch_ms {
        Some(ms) => id_of_millis(ms),
        None => 0,
    }
}

/// The identifier that a reading of the clock stands for.
pub fn unique_id_from_reading(since_epoch_ms: Option<u128>) -> (id: i64)
    ensures
        id == id_of_reading(since_epoch_ms),
{
    match since_epoch_ms {
        Some(ms) => unique_id_from_millis(ms),
        None => 0,
    }
}

/// An identifier for a query's own fingerprint, taken from the system
/// clock: the milliseconds since the epoch, or zero where the clock stands
/// before the epoch. A query needs no particular value, and none is
/// promised: the clock decides.
pub fn generate_unique_id() -> (id: i64) {
    let now = std::time::SystemTime::now();
    let since_epoch_ms: Option<u128> = match since_unix_epoch(&now) {
        Some(elapsed) => Some(elapsed.as_millis()),
        None => None,
    };
    unique_id_from_reading(since_epoch_ms)
}

} // verus!
