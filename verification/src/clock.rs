//! Reading the clock, and the `YYYY-MM-DD` day stamps the reading log uses.
use vstd::prelude::*;
use chrono::{DateTime, Datelike, Local, TimeZone, Timelike};
use crate::text::{decimal, decimal_chars, string_from_chars};

verus! {

/// A local calendar date and hour.
#[derive(Clone, Copy, Debug, PartialEq, Eq, Structural)]
pub struct LocalTime {
    pub year: i32,
    pub month: u32,
    pub day: u32,
    pub hour: u32,
}

/// Instants (ms since the Unix epoch) this far from the epoch or nearer lie
/// well inside the dates chrono can represent (years -262143 to 262142).
pub const LOCAL_MS_LIMIT: i64 = 8000000000000000i64;

/// An upper bound of the instants chrono can represent (the end of year
/// 262142 is 8210266876799999 ms after the epoch).
pub const NOW_MS_MAX: i64 = 8300000000000000i64;

/// `TimeZone::timestamp_millis_opt` on `chrono::Local`, then `Datelike` /
/// `Timelike` of the result: the local date and hour of an instant given in
/// milliseconds since the Unix epoch.  chrono returns `None` only for an
/// instant outside the dates it represents (otherwise `Single`), so every
/// instant within `LOCAL_MS_LIMIT` of the epoch is placed.  chrono keeps the
/// month in 1..=12, the day in 1..=31 and the hour below 24; which date it is
/// depends on the machine's time zone and is not claimed.
#[verifier::external_body]
fn local_time_at(millis: i64) -> (r: Option<LocalTime>)
    ensures
        r matches Some(t) ==> 1 <= t.month <= 12 && 1 <= t.day <= 31 && t.hour < 24,
        -LOCAL_MS_LIMIT <= millis <= LOCAL_MS_LIMIT ==> r is Some,
{
    match Local.timestamp_millis_opt(millis).single() {
        Some(t) => Some(LocalTime { year: t.year(), month: t.month(), day: t.day(), hour: t.hour() }),
        None => None,
    }
}

/// `SystemTime::now`, measured by `SystemTime::duration_since(UNIX_EPOCH)`:
/// the whole seconds and the nanoseconds (`Duration::subsec_nanos`, below one
/// second) since the Unix epoch; `None` when the system clock is set before
/// the epoch.  Which instant is not claimed.
#[verifier::external_body]
pub(crate) fn system_time_since_epoch() -> (r: Option<(u64, u32)>)
    ensures
        r matches Some(t) ==> t.1 < 1000000000,
{
    match std::time::SystemTime::now().duration_since(std::time::UNIX_EPOCH) {
        Ok(d) => Some((d.as_secs(), d.subsec_nanos())),
        Err(_) => None,
    }
}

/// The seconds since the epoch up to which the clock readings are used: the
/// whole seconds below `LOCAL_MS_LIMIT`.
pub const SECS_LIMIT: u64 = 7999999999999u64;

/// `chrono::DateTime::from_timestamp` (UTC) of an instant given in seconds and
/// nanoseconds since the epoch, read back by `DateTime::timestamp_millis`
/// (the seconds times 1000 plus the whole milliseconds of the nanoseconds).
/// chrono returns `None` only outside the dates it represents, so every
/// instant from the epoch to `SECS_LIMIT` seconds is converted, and every
/// result lies before the end of year 262142 (below `NOW_MS_MAX`).
#[verifier::external_body]
fn utc_millis_of(secs: i64, nanos: u32) -> (r: Option<i64>)
    requires
        nanos < 1000000000,
    ensures
        r matches Some(ms) ==> ms == secs * 1000 + nanos / 1000000 && ms <= NOW_MS_MAX,
        0 <= secs <= SECS_LIMIT ==> r is Some,
{
    match DateTime::from_timestamp(secs, nanos) {
        Some(t) => Some(t.timestamp_millis()),
        None => None,
    }
}

/// The current instant, in milliseconds since the Unix epoch, as the system
/// clock reports it; a clock set before the epoch, or past `SECS_LIMIT`
/// seconds, reads as the epoch.
pub fn utc_now_millis() -> (r: i64)
    ensures
        0 <= r <= NOW_MS_MAX,
        r < LOCAL_MS_LIMIT,
{
    match system_time_since_epoch() {
        Some((secs, nanos)) => if secs <= SECS_LIMIT {
            match utc_millis_of(secs as i64, nanos) {
                Some(ms) => ms,
                None => 0,
            }
        } else {
            0
        },
        None => 0,
    }
}

/// `s` preceded by zeros up to `width` characters.
pub open spec fn zero_padded(s: Seq<char>, width: nat) -> Seq<char> {
    if s.len() >= width {
        s
    } else {
        Seq::new((width - s.len()) as nat, |i: int| '0') + s
    }
}

/// The year as `{:04}` prints it: at least four characters, the sign counted.
pub open spec fn year_text(y: int) -> Seq<char> {
    if y >= 0 {
        zero_padded(decimal(y as nat), 4)
    } else {
        seq!['-'] + zero_padded(decimal((-y) as nat), 3)
    }
}

/// The day stamp `YYYY-MM-DD`.
pub open spec fn date_text(y: int, m: int, d: int) -> Seq<char> {
    year_text(y) + seq!['-'] + zero_padded(decimal(m as nat), 2) + seq!['-'] + zero_padded(
        decimal(d as nat),
        2,
    )
}

/// Whether `t` is the day stamp of some calendar-shaped date.
pub open spec fn is_day_stamp(t: Seq<char>) -> bool {
    exists|y: int, m: int, d: int| 1 <= m <= 12 && 1 <= d <= 31 && #[trigger] date_text(y, m, d) == t
}

/// Append `n` in decimal, zero-padded to `width`.
fn push_padded(out: &mut Vec<char>, n: u64, width: usize)
    ensures
        final(out)@ == old(out)@ + zero_padded(decimal(n as nat), width as nat),
{
    let digits = decimal_chars(n);
    let ghost start = out@;
    if digits.len() < width {
        let pad = width - digits.len();
        let mut i: usize = 0;
        while i < pad
            invariant
                i <= pad,
                out@ =~= start + Seq::new(i as nat, |k: int| '0'),
            decreases pad - i,
        {
            out.push('0');
            i = i + 1;
        }
    }
    let ghost mid = out@;
    let mut j: usize = 0;
    while j < digits.len()
        invariant
            j <= digits.len(),
            out@ =~= mid + digits@.take(j as int),
        decreases digits.len() - j,
    {
        out.push(digits[j]);
        j = j + 1;
    }
    assert(digits@.take(digits.len() as int) =~= digits@);
}

/// The day stamp of a date.
pub fn format_date(y: i32, m: u32, d: u32) -> (r: String)
    ensures
        r@ == date_text(y as int, m as int, d as int),
{
    let mut out: Vec<char> = Vec::new();
    if y >= 0 {
        push_padded(&mut out, y as u64, 4);
    } else {
        out.push('-');
        let magnitude: i64 = -(y as i64);
        push_padded(&mut out, magnitude as u64, 3);
    }
    out.push('-');
    push_padded(&mut out, m as u64, 2);
    out.push('-');
    push_padded(&mut out, d as u64, 2);
    assert(out@ =~= date_text(y as int, m as int, d as int));
    string_from_chars(&out)
}

/// Milliseconds in a day.
pub const DAY_MS: i64 = 86400000i64;

/// The local time whose date names the day: the given one, or the one a day
/// earlier when the hour is before the day's start and that time is known.
pub open spec fn day_time(t: LocalTime, day_before: Option<LocalTime>, day_start_hour: u32) -> LocalTime {
    if t.hour < day_start_hour {
        match day_before {
            Some(e) => e,
            None => t,
        }
    } else {
        t
    }
}

/// The day stamp for the local time `t`, given the local time a day earlier
/// (when the clock knows it), where a day begins at `day_start_hour`.
pub fn day_stamp_of(t: LocalTime, day_before: Option<LocalTime>, day_start_hour: u32) -> (r: String)
    ensures
        ({
            let u = day_time(t, day_before, day_start_hour);
            r@ == date_text(u.year as int, u.month as int, u.day as int)
        }),
{
    let u = if t.hour < day_start_hour {
        match day_before {
            Some(e) => e,
            None => t,
        }
    } else {
        t
    };
    format_date(u.year, u.month, u.day)
}

/// The day stamp of the local day that contains the instant `now_ms`, where a
/// day begins at `day_start_hour`: before that hour it is the day 24 hours
/// earlier.  `None` when the clock cannot place the instant, which never
/// happens within `LOCAL_MS_LIMIT` of the epoch.
pub fn day_stamp_at(now_ms: i64, day_start_hour: u32) -> (r: Option<String>)
    ensures
        r matches Some(s) ==> is_day_stamp(s@),
        -LOCAL_MS_LIMIT <= now_ms <= LOCAL_MS_LIMIT ==> r is Some,
{
    let t = match local_time_at(now_ms) {
        Some(t) => t,
        None => return None,
    };
    let day_before = if t.hour < day_start_hour && now_ms >= i64::MIN + DAY_MS {
        local_time_at(now_ms - DAY_MS)
    } else {
        None
    };
    let r = day_stamp_of(t, day_before, day_start_hour);
    let ghost u = day_time(t, day_before, day_start_hour);
    assert(date_text(u.year as int, u.month as int, u.day as int) == r@);
    Some(r)
}

/// A local date and hour in the ranges chrono keeps.
pub open spec fn local_ok(t: LocalTime) -> bool {
    1 <= t.month <= 12 && 1 <= t.day <= 31 && t.hour < 24
}

/// The day of reading for the local time `t`, given the local time a day
/// earlier, where a day begins at `day_start_hour`.
pub open spec fn reading_day_for(day_start_hour: u32, t: LocalTime, day_before: LocalTime) -> Seq<char> {
    let u = day_time(t, Some(day_before), day_start_hour);
    date_text(u.year as int, u.month as int, u.day as int)
}

/// The day of a local time in the ranges chrono keeps is a day stamp.
pub proof fn lemma_reading_day_is_stamp(h: u32, t: LocalTime, b: LocalTime)
    requires
        local_ok(t),
        local_ok(b),
    ensures
        is_day_stamp(reading_day_for(h, t, b)),
{
    let u = day_time(t, Some(b), h);
    assert(date_text(u.year as int, u.month as int, u.day as int) == reading_day_for(h, t, b));
}

/// The local time now and the local time a day earlier, as the system clock
/// and the machine's time zone give them.
pub fn local_now() -> (r: (LocalTime, LocalTime))
    ensures
        local_ok(r.0),
        local_ok(r.1),
{
    let now = utc_now_millis();
    let t = match local_time_at(now) {
        Some(t) => t,
        None => {
            assert(false);
            LocalTime { year: 1970, month: 1, day: 1, hour: 0 }
        },
    };
    let b = match local_time_at(now - DAY_MS) {
        Some(b) => b,
        None => {
            assert(false);
            LocalTime { year: 1970, month: 1, day: 1, hour: 0 }
        },
    };
    (t, b)
}

/// Today's stamp in local time, where a day begins at `day_start_hour`: before
/// that hour the stamp is the previous day's.
pub fn today_string_with_offset(day_start_hour: u32) -> (r: String)
    ensures
        exists|t: LocalTime, b: LocalTime|
            local_ok(t) && local_ok(b) && r@ == #[trigger] reading_day_for(day_start_hour, t, b),
        is_day_stamp(r@),
{
    let (t, b) = local_now();
    let r = day_stamp_of(t, Some(b), day_start_hour);
    proof {
        lemma_reading_day_is_stamp(day_start_hour, t, b);
        assert(r@ == reading_day_for(day_start_hour, t, b));
    }
    r
}

} // verus!
