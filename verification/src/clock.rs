//! The clock that stamps scopes, events and subscriptions.

use chrono::Utc;
use vstd::prelude::*;

verus! {

/// Reads the wall clock, in milliseconds since the Unix epoch.
///
/// Calls `chrono::Utc::now` and takes the reading with
/// `DateTime::timestamp_millis`. Trusted: the reading is not negative, since
/// `Utc::now` measures the time that has passed since the epoch. Nothing
/// else is claimed: two readings may differ in either direction. The call
/// panics if the system clock stands before the epoch.
#[verifier::external_body]
pub(crate) fn now_millis() -> (millis: i64)
    ensures
        millis >= 0,
{
    Utc::now().timestamp_millis()
}

} // verus!
