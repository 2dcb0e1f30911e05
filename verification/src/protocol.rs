//! Wire protocols spoken between controllers and device endpoints, and
//! the millisecond clock that freshness tracking is measured against.

pub mod socket_protocol;
pub mod therm_protocol;

use vstd::prelude::*;

verus! {

/// Relies on `std::time::SystemTime::now`: one reading of the wall
/// clock, converted to whole milliseconds since the Unix epoch (zero if
/// the clock reads earlier than the epoch). Nothing can be promised of
/// the value: it depends on the machine's clock alone.
#[verifier::external_body]
fn system_millis() -> u64 {
    std::time::SystemTime::now()
        .duration_since(std::time::UNIX_EPOCH)
        .unwrap_or_default()
        .as_millis() as u64
}

/// Current time in milliseconds since the Unix epoch. Controllers stamp
/// incoming samples with this value and age them against it.
pub fn now_ms() -> u64 {
    system_millis()
}

} // verus!
