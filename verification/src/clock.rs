//! The wall clock.

use vstd::prelude::*;

verus! {

/// `std::time::SystemTime::now`, turned into a date by chrono's
/// `From<SystemTime> for DateTime<Utc>` and read through
/// `DateTime::timestamp_millis`: the milliseconds since the Unix epoch that
/// the system clock shows. A clock that stands before 1970 gives a negative
/// number. Nothing is claimed of the number: two calls may give any two
/// values. The conversion gives up only on a clock beyond the dates that
/// chrono can hold, some 262,000 years either side of 1970.
#[verifier::external_body]
pub(crate) fn unix_millis() -> i64 {
    chrono::DateTime::<chrono::Utc>::from(std::time::SystemTime::now()).timestamp_millis()
}

} // verus!
