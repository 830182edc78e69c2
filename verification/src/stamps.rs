//! Ids and times: what two calls never share.

use vstd::prelude::*;

verus! {

/// `chrono::Utc::now`, as `timestamp_millis` counts it: the milliseconds
/// since the Unix epoch.  The clock decides how many; they are never below
/// zero, as `chrono` takes no clock that is set before the epoch.
#[verifier::external_body]
pub(crate) fn now_millis() -> (r: i64)
    ensures
        r >= 0,
{
    chrono::Utc::now().timestamp_millis()
}

/// `uuid::Uuid::new_v4`, as a number: a random id, with the version and the
/// variant bits of a random UUID set.  Chance decides the other bits.
#[verifier::external_body]
pub(crate) fn fresh_id() -> (r: u128)
    ensures
        (r >> 76) & 0xf == 4,
        (r >> 62) & 0x3 == 2,
{
    uuid::Uuid::new_v4().as_u128()
}

/// Is this a time, in milliseconds since the Unix epoch, that the calendar
/// has?  Its years are -262143 to 262142.
pub open spec fn in_calendar(ms: int) -> bool {
    -8334601228800000 <= ms <= 8210266876799999
}

/// `chrono::DateTime::from_timestamp_millis`, and back by `timestamp_millis`:
/// the same time, where the calendar has it, otherwise `None`.
#[verifier::external_body]
pub(crate) fn calendar_time(ms: i64) -> (r: Option<i64>)
    ensures
        r == (if in_calendar(ms as int) {
            Some(ms)
        } else {
            None
        }),
{
    chrono::DateTime::from_timestamp_millis(ms).map(|t| t.timestamp_millis())
}

} // verus!
