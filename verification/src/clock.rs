//! Wall-clock reading used to stamp observations.

use vstd::prelude::*;

verus! {

/// Relies on `std::time::SystemTime::now`: the current wall-clock time,
/// converted to whole seconds since the Unix epoch.  A clock that reads
/// before the epoch makes `duration_since` report an error, which is
/// mapped to the sentinel 0 rather than left to unwind, and a reading
/// too large for the stamp saturates; so the call returns a
/// non-negative stamp on every machine and cannot panic.  Nothing
/// further holds of a clock reading; the store takes the value as an
/// argument and is verified for every value.
#[verifier::external_body]
pub fn now_unix() -> (ts: i64)
    ensures
        ts >= 0,
{
    match std::time::SystemTime::now().duration_since(std::time::UNIX_EPOCH) {
        Ok(elapsed) => i64::try_from(elapsed.as_secs()).unwrap_or(i64::MAX),
        Err(_) => 0,
    }
}

} // verus!
