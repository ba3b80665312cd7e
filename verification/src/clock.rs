//! The wall clock, as the two calendars that the service consults report it.

use vstd::prelude::*;

verus! {

/// Reads the clock through `time::OffsetDateTime::now_utc` and takes its
/// `unix_timestamp`: whole seconds since the epoch. Nothing is claimed of the
/// number: it depends on the moment of the call.
#[verifier::external_body]
pub(crate) fn unix_now() -> (now: i64) {
    time::OffsetDateTime::now_utc().unix_timestamp()
}

/// Reads the clock through `chrono::Utc::now` and takes its `timestamp`: whole
/// seconds since the epoch. Nothing is claimed of the number: it depends on
/// the moment of the call.
#[verifier::external_body]
pub(crate) fn utc_timestamp() -> (now: i64) {
    chrono::Utc::now().timestamp()
}

/// One hour, in seconds.
pub const HOUR: i64 = 3600;

/// Whether an hour can be added to and taken from `now` within the machine's integers.
pub open spec fn hour_fits(now: int) -> bool {
    i64::MIN + HOUR <= now <= i64::MAX - HOUR
}

/// Whether an hour can be added to and taken from `now` within the machine's integers.
pub fn has_hour_around(now: i64) -> (r: bool)
    ensures
        r == hour_fits(now as int),
{
    now >= i64::MIN + HOUR && now <= i64::MAX - HOUR
}

} // verus!
