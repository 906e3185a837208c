//! The wall clock.
//!
//! The session guard measures elapsed time in whole milliseconds. The reading
//! itself comes from the operating system and nothing can be promised of it,
//! so every rule about sessions is stated and proved over an explicit
//! timestamp argument; this module only supplies the ambient reading.

use vstd::prelude::*;

verus! {

/// Relies on `std::time::SystemTime::now`: a wall-clock reading, converted
/// to whole milliseconds since the Unix epoch. The clock may jump either
/// way, so nothing is promised of the value.
#[verifier::external_body]
pub(crate) fn now_millis() -> u64 {
    match std::time::SystemTime::now().duration_since(std::time::UNIX_EPOCH) {
        Ok(d) => d.as_millis() as u64,
        Err(_) => 0,
    }
}

} // verus!
