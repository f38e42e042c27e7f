use vstd::prelude::*;

verus! {

/// The earliest Unix timestamp (seconds) that the calendar can represent:
/// January 1st of the year -262143, 00:00:00 UTC.
pub const MIN_TIMESTAMP: i64 = -8_334_601_228_800;

/// The latest Unix timestamp (seconds) that the calendar can represent:
/// December 31st of the year 262142, 23:59:59 UTC.
pub const MAX_TIMESTAMP: i64 = 8_210_266_876_799;

/// Whether the calendar can represent the Unix timestamp `secs`.
pub open spec fn representable(secs: int) -> bool {
    MIN_TIMESTAMP <= secs <= MAX_TIMESTAMP
}

/// A stored timestamp read back as a calendar date and time: the timestamp itself
/// where the calendar represents it, the Unix epoch otherwise.
pub open spec fn spec_datetime_of(secs: int) -> int {
    if representable(secs) { secs } else { 0 }
}

/// `chrono::DateTime::from_timestamp(secs, 0)`: the contract claims that it succeeds
/// exactly on the timestamps from `MIN_TIMESTAMP` to `MAX_TIMESTAMP`, the range of
/// chrono's `NaiveDateTime`.
#[verifier::external_body]
pub(crate) fn calendar_accepts(secs: i64) -> (b: bool)
    ensures
        b == representable(secs as int),
{
    chrono::DateTime::from_timestamp(secs, 0).is_some()
}

/// Reads a stored timestamp as a calendar timestamp, falling back to the Unix epoch
/// where the calendar cannot represent it.
pub fn datetime_of(secs: i64) -> (r: i64)
    ensures
        r == spec_datetime_of(secs as int),
{
    if calendar_accepts(secs) {
        secs
    } else {
        0
    }
}

} // verus!
