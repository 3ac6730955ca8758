use vstd::prelude::*;

verus! {

/// Length of one allocation window, in seconds.
pub const WINDOW_SECONDS: i64 = 3600;

/// Earliest instant (seconds since the Unix epoch, UTC) that the clock handles.
pub const MIN_INSTANT: i64 = -9_000_000_000;

/// Latest instant (seconds since the Unix epoch, UTC) that the clock handles.
pub const MAX_INSTANT: i64 = 9_000_000_000;

/// An instant whose nanosecond count fits the calendar arithmetic.
pub open spec fn valid_instant(t: i64) -> bool {
    MIN_INSTANT <= t <= MAX_INSTANT
}

/// Start of the calendar hour (UTC) that contains `t`.
pub open spec fn window_of(t: int) -> int {
    t - t % (WINDOW_SECONDS as int)
}

/// Relies on chrono's `DateTime::<Utc>::from_timestamp` and
/// `DurationRound::duration_trunc`: truncating by one hour gives the start of
/// the hour, rounding toward the past, for every instant whose nanosecond
/// count fits an `i64`.
#[verifier::external_body]
fn truncate_to_hour(secs: i64) -> (r: Option<i64>)
    ensures
        valid_instant(secs) ==> r == Some(window_of(secs as int) as i64),
        r is Some ==> r->0 == window_of(secs as int),
{
    match chrono::DateTime::from_timestamp(secs, 0) {
        Some(d) => match chrono::DurationRound::duration_trunc(d, chrono::TimeDelta::hours(1)) {
            Ok(t) => Some(t.timestamp()),
            Err(_) => None,
        },
        None => None,
    }
}

/// The start of a window that holds a valid instant.
pub open spec fn is_window(w: i64) -> bool {
    &&& w as int % (WINDOW_SECONDS as int) == 0
    &&& MIN_INSTANT - WINDOW_SECONDS <= w <= MAX_INSTANT
}

/// The window that `now` falls in: the start of its calendar hour, UTC.
pub fn window_start(now: i64) -> (w: i64)
    requires
        valid_instant(now),
    ensures
        w == window_of(now as int),
        w <= now,
        now - w < WINDOW_SECONDS,
        is_window(w),
{
    match truncate_to_hour(now) {
        Some(w) => w,
        None => now,
    }
}


/// Whether instant `t` falls in window `w`.
pub fn in_window_at(t: i64, w: i64) -> (r: bool)
    requires
        is_window(w),
    ensures
        r == (window_of(t as int) == w),
{
    t >= w && t < w + WINDOW_SECONDS
}

} // verus!
