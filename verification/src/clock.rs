//! Wall-clock time: the firmware hands over a civil UTC time, and the
//! kernel reports it to user code as nanoseconds since the Unix epoch.
//! The conversion is done by chrono behind a trusted wrapper.

use vstd::prelude::*;

verus! {

/// Nanoseconds per second.
pub const NANOS_PER_SECOND: i64 = 1_000_000_000;

/// Nanoseconds per millisecond.
pub const NANOS_PER_MILLISECOND: i64 = 1_000_000;

/// A civil UTC time as the firmware's real-time clock reports it.
#[derive(Clone, Copy, Debug, PartialEq, Eq, Structural)]
pub struct ClockTime {
    /// Calendar year.
    pub year: i32,
    /// Month, 1 to 12.
    pub month: u32,
    /// Day of the month, 1-based.
    pub day: u32,
    /// Hour, 0 to 23.
    pub hour: u32,
    /// Minute, 0 to 59.
    pub minute: u32,
    /// Second, 0 to 59.
    pub second: u32,
    /// Nanoseconds within the second.
    pub nanosecond: u32,
}

/// The number of nanoseconds since the Unix epoch of the given civil
/// UTC time, when the fields form a valid date and time representable
/// in an `i64`; the result depends on the fields alone.
pub uninterp spec fn utc_nanos_of(
    year: int,
    month: int,
    day: int,
    hour: int,
    minute: int,
    second: int,
    nanosecond: int,
) -> Option<i64>;

/// Relies on chrono's NaiveDate::from_ymd_opt, and_hms_nano_opt and
/// DateTime::timestamp_nanos_opt: the nanoseconds since the Unix epoch
/// of a civil UTC time, or nothing when the fields are invalid or the
/// value does not fit.
#[verifier::external_body]
fn chrono_timestamp_nanos(t: &ClockTime) -> (r: Option<i64>)
    ensures
        r == utc_nanos_of(
            t.year as int,
            t.month as int,
            t.day as int,
            t.hour as int,
            t.minute as int,
            t.second as int,
            t.nanosecond as int,
        ),
{
    let date = chrono::NaiveDate::from_ymd_opt(t.year, t.month, t.day)?;
    let datetime = date.and_hms_nano_opt(t.hour, t.minute, t.second, t.nanosecond)?;
    datetime.and_utc().timestamp_nanos_opt()
}

/// The Time syscall's value for a clock reading.
pub open spec fn spec_sys_clock(t: Option<ClockTime>) -> i64 {
    match t {
        None => -1i64,
        Some(c) => match utc_nanos_of(
            c.year as int,
            c.month as int,
            c.day as int,
            c.hour as int,
            c.minute as int,
            c.second as int,
            c.nanosecond as int,
        ) {
            Some(n) => n,
            None => 0,
        },
    }
}

/// The Time syscall's value: the clock reading as nanoseconds since
/// the epoch, 0 when the reading cannot be represented, and −1 when no
/// clock reading is available at all.
pub fn sys_clock(t: Option<ClockTime>) -> (r: i64)
    ensures
        r == spec_sys_clock(t),
{
    match t {
        None => -1,
        Some(c) => match chrono_timestamp_nanos(&c) {
            Some(n) => n,
            None => 0,
        },
    }
}

/// A non-negative epoch timestamp split into whole seconds and the
/// nanoseconds within the second.
pub fn split_timestamp(nanos: i64) -> (r: (i64, u32))
    requires
        nanos >= 0,
    ensures
        r.0 == (nanos as int) / (NANOS_PER_SECOND as int),
        r.1 == (nanos as int) % (NANOS_PER_SECOND as int),
        r.0 * (NANOS_PER_SECOND as int) + r.1 == nanos,
{
    let secs = nanos / NANOS_PER_SECOND;
    let rest = nanos % NANOS_PER_SECOND;
    proof {
        assert(secs * (NANOS_PER_SECOND as int) + rest == nanos) by (nonlinear_arith)
            requires
                secs == (nanos as int) / (NANOS_PER_SECOND as int),
                rest == (nanos as int) % (NANOS_PER_SECOND as int),
                NANOS_PER_SECOND == 1_000_000_000,
                nanos >= 0,
        ;
    }
    (secs, rest as u32)
}

/// Whether a sleep that started at `start_ns` is over at `now_ns`,
/// for a duration of `millis` milliseconds.
pub fn sleep_elapsed(start_ns: i64, now_ns: i64, millis: i64) -> (r: bool)
    ensures
        r == (now_ns - start_ns >= millis * (NANOS_PER_MILLISECOND as int)),
{
    let diff: i128 = now_ns as i128 - start_ns as i128;
    proof {
        assert((millis as int) * (NANOS_PER_MILLISECOND as int) <= i128::MAX && (
        millis as int) * (NANOS_PER_MILLISECOND as int) >= i128::MIN) by (nonlinear_arith)
            requires
                i64::MIN <= millis <= i64::MAX,
                NANOS_PER_MILLISECOND == 1_000_000,
        ;
    }
    let wanted: i128 = millis as i128 * NANOS_PER_MILLISECOND as i128;
    diff >= wanted
}

} // verus!
