//! Trusted access to the local clock and the local time zone, through
//! chrono, over plain millisecond values.

use vstd::prelude::*;

verus! {

/// Magnitude bound on every chrono timestamp: chrono documents its dates as
/// limited to roughly 262,000 years around the epoch, so timestamps in
/// milliseconds stay far below this.
pub const CLOCK_BOUND_MILLIS: i64 = 9000000000000000;

/// Whether a millisecond timestamp lies in chrono's representable range.
pub open spec fn in_clock_range(t: i64) -> bool {
    -CLOCK_BOUND_MILLIS <= t <= CLOCK_BOUND_MILLIS
}

/// Relies on `chrono::Local::now` (converted with `timestamp_millis`): the
/// clock's value cannot be pinned down, but chrono documents its dates as
/// limited to about 262,000 years around the epoch, which keeps the
/// timestamp within `in_clock_range`.
#[verifier::external_body]
pub fn now_millis() -> (r: i64)
    ensures
        in_clock_range(r),
{
    chrono::Local::now().timestamp_millis()
}

/// Relies on `chrono::Local::now` (converted with `naive_local` and
/// `timestamp_millis`): the local wall-clock time as milliseconds since the
/// epoch's midnight, read as if it were UTC. Bounded as `now_millis` is.
#[verifier::external_body]
pub fn now_naive_local_ms() -> (r: i64)
    ensures
        in_clock_range(r),
{
    chrono::Local::now().naive_local().and_utc().timestamp_millis()
}

/// Relies on `chrono::NaiveDateTime::and_local_timezone` with `Local` (and
/// `LocalResult::single`): the unique local instant showing the given
/// wall-clock time, or `None` when the time zone makes it ambiguous or
/// skipped. The result depends on the machine's time zone, so only its
/// range is stated, which chrono's documented limits give.
#[verifier::external_body]
pub fn resolve_local_ms(naive_ms: i64) -> (r: Option<i64>)
    ensures
        r matches Some(t) ==> in_clock_range(t),
{
    let dt = match chrono::DateTime::<chrono::Utc>::from_timestamp_millis(naive_ms) {
        Some(d) => d.naive_utc(),
        None => {
            return None;
        },
    };
    match dt.and_local_timezone(chrono::Local).single() {
        Some(t) => Some(t.timestamp_millis()),
        None => None,
    }
}

} // verus!
