//! The wall clock, read as whole seconds since the Unix epoch.

use vstd::prelude::*;
use std::time::SystemTime;
use std::time::UNIX_EPOCH;

verus! {

/// Relies on `std::time::SystemTime::now` and
/// `SystemTime::duration_since(UNIX_EPOCH)`: the wall clock as whole
/// seconds since the Unix epoch, or zero if the clock reads before the
/// epoch. Nothing is promised of the value — it depends on the machine's
/// clock — so every caller must work for any reading.
#[verifier::external_body]
pub fn get_now() -> u64 {
    SystemTime::now().duration_since(UNIX_EPOCH).map(|d| d.as_secs()).unwrap_or(0)
}

} // verus!
