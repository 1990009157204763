//! Wall-clock time as whole milliseconds since the Unix epoch.

use vstd::prelude::*;

verus! {

/// Milliseconds in a minute.
pub const MILLIS_PER_MINUTE: i64 = 60_000;

/// Milliseconds in an hour.
pub const MILLIS_PER_HOUR: i64 = 3_600_000;

/// How long a liveness signal counts as recent, in minutes.
pub const RECENT_MINUTES: i64 = 5;

/// The current time. Wraps `chrono::Utc::now`, read through
/// `DateTime::timestamp_millis`. Nothing is claimed of the value: two calls
/// may return anything the system clock says.
#[verifier::external_body]
pub(crate) fn now_millis() -> (now: i64) {
    chrono::Utc::now().timestamp_millis()
}

/// Whole minutes from `then` to `now`, rounded toward zero; negative when
/// `then` lies in the future.
pub open spec fn minutes_between(now: i64, then: i64) -> int {
    let span = now as int - then as int;
    if span >= 0 {
        span / 60_000
    } else {
        -((-span) / 60_000)
    }
}

/// Computes [`minutes_between`].
pub fn elapsed_minutes(now: i64, then: i64) -> (m: i64)
    ensures
        m == minutes_between(now, then),
{
    let span: i128 = now as i128 - then as i128;
    if span >= 0 {
        (span / 60_000) as i64
    } else {
        -(((-span) / 60_000) as i64)
    }
}

/// Whether more than `minutes` minutes have passed at `now` since `then`,
/// to the millisecond.
pub open spec fn silence_exceeds(now: i64, then: i64, minutes: i64) -> bool {
    now as int - then as int > minutes as int * 60_000
}

/// Computes [`silence_exceeds`].
pub fn check_silence_exceeds(now: i64, then: i64, minutes: i64) -> (r: bool)
    ensures
        r == silence_exceeds(now, then, minutes),
{
    let span: i128 = now as i128 - then as i128;
    let limit: i128 = (minutes as i128) * 60_000;
    span > limit
}

/// Whether a signal last seen at `then` is recent at `now`: fewer than
/// [`RECENT_MINUTES`] whole minutes have passed.
pub open spec fn is_recent(now: i64, then: i64) -> bool {
    minutes_between(now, then) < RECENT_MINUTES as int
}

/// Computes [`is_recent`].
pub fn check_recent(now: i64, then: i64) -> (r: bool)
    ensures
        r == is_recent(now, then),
{
    elapsed_minutes(now, then) < RECENT_MINUTES
}

} // verus!
