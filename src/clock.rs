use vstd::prelude::*;

verus! {

/// The current time as nanoseconds since the Unix epoch, in UTC, or `None`
/// when that count does not fit an `i64` (outside the years 1677 to 2262).
/// Times before 1970 come out negative.
///
/// Relies on `std::time::SystemTime::now`, chrono's conversion
/// `From<SystemTime> for DateTime<Utc>` (which panics only for a clock
/// beyond the years -262143 to 262142), and `DateTime::timestamp_nanos_opt`.
/// Nothing is promised of the value: it is whatever the system clock reads.
#[verifier::external_body]
pub(crate) fn now_nanos() -> Option<i64> {
    chrono::DateTime::<chrono::Utc>::from(std::time::SystemTime::now()).timestamp_nanos_opt()
}

} // verus!
