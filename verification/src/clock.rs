//! The time of day.

use vstd::prelude::*;

verus! {

/// The last second that a calendar date can name.
pub const LAST_TIMESTAMP: i64 = 8_210_266_876_799;

/// Seconds since the start of 1970, by `chrono::Utc::now` and `DateTime::timestamp`.
///
/// The clock decides which second it is. `Utc::now` rejects a clock that stands before 1970,
/// and no `DateTime` lies after the year 262142, so the number lies between these two.
#[verifier::external_body]
pub(crate) fn now_timestamp() -> (now: i64)
    ensures
        0 <= now <= LAST_TIMESTAMP,
{
    chrono::Utc::now().timestamp()
}

} // verus!
