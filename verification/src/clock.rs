//! Wall-clock reading for the search deadline.

use vstd::prelude::*;

verus! {

/// Relies on `std::time::SystemTime::now`: the wall clock, read in
/// milliseconds since the Unix epoch; zero if the clock reads before the
/// epoch. Nothing is assumed of the value: the clock may even step backwards
/// between two reads, and the engine guards its subtraction accordingly.
#[verifier::external_body]
pub(crate) fn now_millis() -> u64 {
    match std::time::SystemTime::now().duration_since(std::time::UNIX_EPOCH) {
        Ok(d) => d.as_millis() as u64,
        Err(_) => 0,
    }
}

} // verus!
