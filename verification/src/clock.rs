//! The system time source, as seconds since the Unix epoch, and the fixed
//! `YYYY-MM-DD HH:MM:SS` rendering of such a second count in the machine's
//! local time zone.  Both come from the `chrono` crate and are the only
//! outside calls this library makes.

use vstd::prelude::*;

verus! {

/// One more than the largest second count `chrono` can represent: its dates
/// reach year 262143, about 2^43 seconds from the epoch.
pub const TIME_BOUND: i64 = 8_796_093_022_208;

/// Second counts that the rest of the library does arithmetic on.  Everything
/// the clock can return satisfies this.
pub open spec fn time_bounds(t: i64) -> bool {
    -TIME_BOUND < t < TIME_BOUND
}

/// Relies on `chrono::Local::now`: the current time as a `DateTime`, whose
/// second count is bounded by `chrono`'s representable range of years
/// (-262143 to 262142), which lies strictly within 2^43 seconds of the epoch.
/// Nothing else is assumed: the clock may move backwards between calls.
#[verifier::external_body]
pub(crate) fn now_seconds() -> (t: i64)
    ensures
        time_bounds(t),
{
    chrono::Local::now().timestamp()
}

/// Relies on `chrono::TimeZone::timestamp_opt` and `DateTime::format`: writes
/// the instant `t` seconds after the epoch as `YYYY-MM-DD HH:MM:SS` in the
/// machine's local time zone.  The result depends on that time zone, so
/// nothing is promised of it.  A second count at the very edge of `chrono`'s
/// range (past year 262142) is answered with an empty string rather than a
/// panic; `now_seconds` never returns such a value.
#[verifier::external_body]
pub(crate) fn format_local(t: i64) -> (s: String)
    requires
        time_bounds(t),
{
    match chrono::TimeZone::timestamp_opt(&chrono::Local, t, 0) {
        chrono::LocalResult::Single(dt) => dt.format("%F %T").to_string(),
        chrono::LocalResult::Ambiguous(dt, _) => dt.format("%F %T").to_string(),
        chrono::LocalResult::None => String::new(),
    }
}

} // verus!
