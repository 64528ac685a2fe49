//! The system clock.

use vstd::prelude::*;

verus! {

/// Seconds since the Unix epoch, read from `std::time::SystemTime::now`
/// (zero if the clock reads earlier than the epoch). Nothing is promised of
/// the value: two reads may differ.
#[verifier::external_body]
pub fn unix_seconds() -> (r: u64) {
    match std::time::SystemTime::now().duration_since(std::time::UNIX_EPOCH) {
        Ok(d) => d.as_secs(),
        Err(_) => 0,
    }
}

} // verus!
