use vstd::prelude::*;

verus! {

/// Upper clamp for clock readings: far enough in the future that real clocks
/// never reach it, small enough that adding an offset cannot overflow.
pub const MAX_CLOCK_MILLIS: u64 = 0x3FFF_FFFF_FFFF_FFFF;

/// Relies on chrono::Utc::now / DateTime::timestamp_millis: the wall clock as
/// milliseconds since the Unix epoch.  Nothing is assumed of the value.
/// chrono's Utc::now panics on a system clock reading before the Unix epoch;
/// that is environmental, with no input a `requires` could exclude.
#[verifier::external_body]
fn now_millis_raw() -> i64 {
    chrono::Utc::now().timestamp_millis()
}

/// Relies on chrono::Local::now and FixedOffset::local_minus_utc: the local
/// zone's offset from UTC in seconds.  chrono constructs every FixedOffset
/// with `-86_400 < secs < 86_400` and `local_minus_utc` returns that field.
#[verifier::external_body]
fn local_offset_seconds() -> (r: i32)
    ensures
        -86400 < r < 86400,
{
    chrono::Local::now().offset().local_minus_utc()
}

/// The current time in milliseconds since the Unix epoch, clamped into
/// `0 ..= MAX_CLOCK_MILLIS` so that later arithmetic cannot overflow.
pub fn now_millis() -> (r: u64)
    ensures
        r <= MAX_CLOCK_MILLIS,
{
    let raw = now_millis_raw();
    if raw < 0 {
        0
    } else if raw as u64 > MAX_CLOCK_MILLIS {
        MAX_CLOCK_MILLIS
    } else {
        raw as u64
    }
}

/// A UTC timestamp shifted into the machine's local time zone, as signed
/// milliseconds since the Unix epoch.  The offset comes from the environment,
/// so only its bound is known.
pub fn to_local_date_time(utc_millis: u64) -> (r: i64)
    requires
        utc_millis <= MAX_CLOCK_MILLIS,
    ensures
        utc_millis - 86400000 < r < utc_millis + 86400000,
{
    let off_ms: i64 = (local_offset_seconds() as i64) * 1000;
    utc_millis as i64 + off_ms
}

} // verus!
