//! The wall clock.

use vstd::prelude::*;

verus! {

/// Reads the system clock with `std::time::SystemTime::now`, converts the reading with
/// chrono's `DateTime::<Utc>::from` and calls `timestamp_millis` on it: the milliseconds from
/// the Unix epoch to the current moment, negative where the clock stands before the epoch.
/// Nothing is claimed of the value, which differs from call to call. The conversion returns
/// for every reading within the years that chrono can hold.
#[verifier::external_body]
pub(crate) fn epoch_millis_now() -> (millis: i64) {
    chrono::DateTime::<chrono::Utc>::from(std::time::SystemTime::now()).timestamp_millis()
}

} // verus!
