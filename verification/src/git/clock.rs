//! Calendar arithmetic on UNIX timestamps, carried out by `chrono`.

use chrono::{TimeZone, Utc};
use vstd::prelude::*;

verus! {

/// The earliest instant that `chrono` can hold: midnight of 1 January of the
/// year -262143, in seconds since the UNIX epoch.
pub const MIN_TIMESTAMP: i64 = -8_334_601_228_800;

/// The latest whole second that `chrono` can hold: 23:59:59 of 31 December of
/// the year 262142, in seconds since the UNIX epoch.
pub const MAX_TIMESTAMP: i64 = 8_210_266_876_799;

/// A timestamp that stands for a date `chrono` can represent.
pub open spec fn valid_timestamp(secs: int) -> bool {
    MIN_TIMESTAMP <= secs <= MAX_TIMESTAMP
}

/// A span of seconds cut down to whole days, rounding toward zero.
pub open spec fn whole_days(seconds: int) -> int {
    if seconds >= 0 {
        seconds / 86_400
    } else {
        -((-seconds) / 86_400)
    }
}

/// The age in whole days, at `now`, of something dated `then`.
pub open spec fn age_in_days(now: int, then: int) -> int {
    whole_days(now - then)
}

/// Calls `chrono`'s `Utc.timestamp_opt(secs, 0)` and tells whether it gave a
/// date. Trusted: `chrono` accepts exactly the seconds between its minimum
/// and maximum `DateTime<Utc>`, which are the two constants above.
#[verifier::external_body]
pub(crate) fn timestamp_is_representable(secs: i64) -> (ok: bool)
    ensures
        ok == valid_timestamp(secs as int),
{
    Utc.timestamp_opt(secs, 0).earliest().is_some()
}

/// Subtracts two `chrono` dates and calls `TimeDelta::num_days` on the
/// difference. Trusted: with no sub-second part the difference is the exact
/// number of seconds, and `num_days` divides it by 86400 rounding toward zero.
#[verifier::external_body]
pub(crate) fn days_between(now: i64, then: i64) -> (days: i64)
    requires
        valid_timestamp(now as int),
        valid_timestamp(then as int),
    ensures
        days == age_in_days(now as int, then as int),
{
    let later = Utc.timestamp_opt(now, 0).unwrap();
    let earlier = Utc.timestamp_opt(then, 0).unwrap();
    (later - earlier).num_days()
}

/// Whether `secs` stands for a date that the calendar can hold.
pub fn is_valid_timestamp(secs: i64) -> (ok: bool)
    ensures
        ok == valid_timestamp(secs as int),
{
    timestamp_is_representable(secs)
}

/// The age in whole days of a commit made at `then`, seen from `now`.
pub fn age_days(now: i64, then: i64) -> (days: i64)
    requires
        valid_timestamp(now as int),
        valid_timestamp(then as int),
    ensures
        days == age_in_days(now as int, then as int),
{
    days_between(now, then)
}

/// Whether a commit made at `then` is older, at `now`, than `threshold_days`
/// whole days. A commit of exactly `threshold_days` days is not.
pub open spec fn is_stale(now: int, then: int, threshold_days: int) -> bool {
    age_in_days(now, then) > threshold_days
}

/// A commit is stale exactly when a full day more than the threshold has
/// gone by since it was made.
pub proof fn lemma_stale_iff_elapsed(now: int, then: int, threshold_days: int)
    requires
        threshold_days >= 0,
    ensures
        is_stale(now, then, threshold_days) <==> now - then >= (threshold_days + 1) * 86_400,
{
    let d = now - then;
    if d >= 0 {
        assert(d / 86_400 > threshold_days <==> d >= (threshold_days + 1) * 86_400) by (nonlinear_arith)
            requires d >= 0, threshold_days >= 0;
    } else {
        assert((-d) / 86_400 >= 0) by (nonlinear_arith) requires -d > 0;
        assert((threshold_days + 1) * 86_400 > 0) by (nonlinear_arith) requires threshold_days >= 0;
    }
}

/// A commit made no more than `threshold_days` times 86400 seconds ago is
/// not stale; in particular one made exactly that long ago is not.
pub proof fn lemma_at_threshold_not_stale(now: int, then: int, threshold_days: int)
    requires
        threshold_days >= 0,
        now - then <= threshold_days * 86_400,
    ensures
        !is_stale(now, then, threshold_days),
{
    lemma_stale_iff_elapsed(now, then, threshold_days);
    assert(threshold_days * 86_400 < (threshold_days + 1) * 86_400) by (nonlinear_arith);
}

} // verus!
