//! Civil time in UTC on the proleptic Gregorian calendar: the seconds since
//! the Unix epoch of a date and time, whether a forecast target time lies
//! beyond what chrono holds, and the text of a time of day.
use crate::text::{decimal, digit_char, push_decimal};
use vstd::prelude::*;

verus! {

pub open spec fn is_leap_year(y: int) -> bool {
    (y % 4 == 0 && y % 100 != 0) || y % 400 == 0
}

pub open spec fn days_in_month(y: int, m: int) -> int {
    if m == 2 {
        if is_leap_year(y) {
            29
        } else {
            28
        }
    } else if m == 4 || m == 6 || m == 9 || m == 11 {
        30
    } else {
        31
    }
}

/// A date of year 0 or later that exists on the calendar.
pub open spec fn valid_date(y: int, m: int, d: int) -> bool {
    0 <= y && 1 <= m <= 12 && 1 <= d <= days_in_month(y, m)
}

/// A date and a time of day (seconds 0 to 59) that exist.
pub open spec fn valid_date_time(y: int, m: int, d: int, h: int, mi: int, s: int) -> bool {
    valid_date(y, m, d) && 0 <= h < 24 && 0 <= mi < 60 && 0 <= s < 60
}

/// The number of days from 1970-01-01 to the date, negative before it: the
/// days of whole 400-year cycles, counted from March 1 so that the leap day
/// ends a year, and the days within the cycle.
pub open spec fn days_from_civil(y: int, m: int, d: int) -> int {
    let shifted_year = (if m <= 2 {
        y - 1
    } else {
        y
    }) + 400;
    let era = shifted_year / 400;
    let year_of_era = shifted_year % 400;
    let month_from_march = if m > 2 {
        m - 3
    } else {
        m + 9
    };
    let day_of_year = (153 * month_from_march + 2) / 5 + d - 1;
    let day_of_era = year_of_era * 365 + year_of_era / 4 - year_of_era / 100 + day_of_year;
    (era - 1) * 146097 + day_of_era - 719468
}

/// Seconds since 1970-01-01T00:00:00 UTC of a date and time of day.
pub open spec fn seconds_from_civil(y: int, m: int, d: int, h: int, mi: int, s: int) -> int {
    days_from_civil(y, m, d) * 86400 + h * 3600 + mi * 60 + s
}

/// The first second of year 0.
pub open spec fn earliest_timestamp() -> int {
    seconds_from_civil(0, 1, 1, 0, 0, 0)
}

/// The last second that chrono's `DateTime<Utc>` can hold:
/// 262142-12-31T23:59:59.
pub open spec fn latest_timestamp() -> int {
    seconds_from_civil(262142, 12, 31, 23, 59, 59)
}

/// A time from year 0 up to the last that chrono holds.
pub open spec fn timestamp_in_range(t: int) -> bool {
    earliest_timestamp() <= t <= latest_timestamp()
}

/// Seconds of one step of a forecast time unit of code table 4.4, for the
/// units whose length is fixed: minute (0), hour (1), day (2), 3 hours (10),
/// 6 hours (11), 12 hours (12) and second (13).
pub open spec fn forecast_unit_seconds(unit: u8) -> Option<int> {
    if unit == 13 {
        Some(1)
    } else if unit == 0 {
        Some(60)
    } else if unit == 1 {
        Some(3600)
    } else if unit == 10 {
        Some(10800)
    } else if unit == 11 {
        Some(21600)
    } else if unit == 12 {
        Some(43200)
    } else if unit == 2 {
        Some(86400)
    } else {
        None
    }
}

/// The reference time of a submessage (year, month, day, hour, minute,
/// second, as written) and its forecast time (unit and value), if any.
pub type ReferenceTime = (u16, u8, u8, u8, u8, u8);

/// The forecast target time would pass the last second that chrono holds:
/// the reference time exists, the forecast unit has a fixed length, and the
/// reference time plus the forecast time lies beyond
/// `latest_timestamp()`. There the `grib` crate's `TemporalInfo` adds the
/// two with chrono's `+`, which panics.
pub open spec fn forecast_overflows(reference: ReferenceTime, forecast: Option<(u8, u32)>) -> bool {
    let (y, mo, d, h, mi, s) = reference;
    &&& valid_date_time(y as int, mo as int, d as int, h as int, mi as int, s as int)
    &&& forecast matches Some((unit, value)) && forecast_unit_seconds(unit) matches Some(step)
        && seconds_from_civil(y as int, mo as int, d as int, h as int, mi as int, s as int) + value
        * step > latest_timestamp()
}

/// The days from 1970-01-01 to a date of year 0 to 300000.
fn days_from_civil_exec(y: u32, m: u32, d: u32) -> (r: i64)
    requires
        y <= 300000,
        1 <= m <= 12,
        1 <= d <= 31,
    ensures
        r == days_from_civil(y as int, m as int, d as int),
{
    let shifted_year: u64 = if m <= 2 {
        y as u64 + 399
    } else {
        y as u64 + 400
    };
    let era: u64 = shifted_year / 400;
    let year_of_era: u64 = shifted_year % 400;
    let month_from_march: u64 = if m > 2 {
        m as u64 - 3
    } else {
        m as u64 + 9
    };
    let day_of_year: u64 = (153 * month_from_march + 2) / 5 + d as u64 - 1;
    let day_of_era: u64 = year_of_era * 365 + year_of_era / 4 - year_of_era / 100 + day_of_year;
    assert(era <= 751);
    (era * 146097 + day_of_era) as i64 - 146097 - 719468
}

fn is_leap_year_exec(y: u32) -> (r: bool)
    ensures
        r == is_leap_year(y as int),
{
    (y % 4 == 0 && y % 100 != 0) || y % 400 == 0
}

fn days_in_month_exec(y: u32, m: u32) -> (r: u32)
    ensures
        r == days_in_month(y as int, m as int),
{
    if m == 2 {
        if is_leap_year_exec(y) {
            29
        } else {
            28
        }
    } else if m == 4 || m == 6 || m == 9 || m == 11 {
        30
    } else {
        31
    }
}

fn forecast_unit_seconds_exec(unit: u8) -> (r: Option<i64>)
    ensures
        match (r, forecast_unit_seconds(unit)) {
            (Some(a), Some(b)) => a == b,
            (None, None) => true,
            _ => false,
        },
{
    if unit == 13 {
        Some(1)
    } else if unit == 0 {
        Some(60)
    } else if unit == 1 {
        Some(3600)
    } else if unit == 10 {
        Some(10800)
    } else if unit == 11 {
        Some(21600)
    } else if unit == 12 {
        Some(43200)
    } else if unit == 2 {
        Some(86400)
    } else {
        None
    }
}

/// Whether the forecast target time would pass the last second that chrono
/// holds.
pub fn check_forecast_overflows(reference: ReferenceTime, forecast: Option<(u8, u32)>) -> (r: bool)
    ensures
        r == forecast_overflows(reference, forecast),
{
    let (y, mo, d, h, mi, s) = reference;
    if mo < 1 || mo > 12 || d < 1 || h >= 24 || mi >= 60 || s >= 60 {
        return false;
    }
    if d as u32 > days_in_month_exec(y as u32, mo as u32) {
        return false;
    }
    match forecast {
        None => false,
        Some((unit, value)) => match forecast_unit_seconds_exec(unit) {
            None => false,
            Some(step) => {
                let days = days_from_civil_exec(y as u32, mo as u32, d as u32);
                let latest_days = days_from_civil_exec(262142, 12, 31);
                let start: i64 = days * 86400 + h as i64 * 3600 + mi as i64 * 60 + s as i64;
                let latest: i64 = latest_days * 86400 + 86399;
                assert(0 <= value * step <= 4294967295 * 86400) by (nonlinear_arith)
                    requires
                        0 <= value <= 4294967295,
                        1 <= step <= 86400,
                ;
                let offset: i64 = value as i64 * step;
                offset > latest - start
            },
        },
    }
}

/// Whether `t` lies from year 0 up to the last time chrono holds.
pub fn check_timestamp_in_range(t: i64) -> (r: bool)
    ensures
        r == timestamp_in_range(t as int),
{
    let earliest: i64 = days_from_civil_exec(0, 1, 1) * 86400;
    let latest: i64 = days_from_civil_exec(262142, 12, 31) * 86400 + 86399;
    earliest <= t && t <= latest
}

// ---------------------------------------------------------------------------
// Text of a date and of a time of day
// ---------------------------------------------------------------------------

/// Decimal text of `n`, with leading zeros up to two digits.
pub open spec fn two_digits(n: nat) -> Seq<char> {
    if n < 10 {
        seq!['0'] + decimal(n)
    } else {
        decimal(n)
    }
}

/// Year text as chrono's `NaiveDate` shows it: four digits with leading
/// zeros up to year 9999, and a '+' sign before later years.
pub open spec fn year_text(y: nat) -> Seq<char> {
    if y < 10 {
        seq!['0', '0', '0'] + decimal(y)
    } else if y < 100 {
        seq!['0', '0'] + decimal(y)
    } else if y < 1000 {
        seq!['0'] + decimal(y)
    } else if y <= 9999 {
        decimal(y)
    } else {
        seq!['+'] + decimal(y)
    }
}

/// The calendar date `y-m-d` is day `day` counted from 1970-01-01.
pub open spec fn is_date_of_day(y: int, m: int, d: int, day: int) -> bool {
    valid_date(y, m, d) && days_from_civil(y, m, d) == day
}

/// The text "YYYY-MM-DD" of the UTC date of time `t` (seconds since the
/// Unix epoch), as chrono's `NaiveDate` shows it.
pub open spec fn date_text_of(t: int) -> Seq<char> {
    let day = t / 86400;
    let (y, m, d) = choose|y: int, m: int, d: int| is_date_of_day(y, m, d, day);
    year_text(y as nat) + seq!['-'] + two_digits(m as nat) + seq!['-'] + two_digits(d as nat)
}

/// The text "HH:MM:SS" of the UTC time of day of `t` (seconds since the
/// Unix epoch), as chrono's `NaiveTime` shows a time of whole seconds.
pub open spec fn time_text_of(t: int) -> Seq<char> {
    let s = t % 86400;
    two_digits((s / 3600) as nat) + seq![':'] + two_digits(((s % 3600) / 60) as nat) + seq![':']
        + two_digits((s % 60) as nat)
}

/// A number below 100 is written with exactly two digits: its tens and its
/// units.
pub proof fn lemma_two_digits(n: nat)
    requires
        n < 100,
    ensures
        two_digits(n) == seq![digit_char((n / 10) as int), digit_char((n % 10) as int)],
{
    reveal_with_fuel(decimal, 2);
    if n >= 10 {
        assert(decimal((n / 10) as nat) == seq![digit_char((n / 10) as int)]);
    }
}

/// The text of a time of day is "HH:MM:SS": eight characters, the hour
/// (below 24), the minute and the second (below 60) of the time each in two
/// digits, separated by ':'.
pub proof fn lemma_time_text_digits(t: int)
    ensures
        ({
            let s = t % 86400;
            let h = s / 3600;
            let m = (s % 3600) / 60;
            let sec = s % 60;
            &&& 0 <= h < 24
            &&& 0 <= m < 60
            &&& 0 <= sec < 60
            &&& h * 3600 + m * 60 + sec == s
            &&& time_text_of(t) == seq![
                digit_char(h / 10),
                digit_char(h % 10),
                ':',
                digit_char(m / 10),
                digit_char(m % 10),
                ':',
                digit_char(sec / 10),
                digit_char(sec % 10),
            ]
        }),
{
    let s = t % 86400;
    let h = s / 3600;
    let m = (s % 3600) / 60;
    let sec = s % 60;
    assert(0 <= h < 24 && 0 <= m < 60 && 0 <= sec < 60 && h * 3600 + m * 60 + sec == s) by (nonlinear_arith)
        requires
            0 <= s < 86400,
            h == s / 3600,
            m == (s % 3600) / 60,
            sec == s % 60,
    ;
    lemma_two_digits(h as nat);
    lemma_two_digits(m as nat);
    lemma_two_digits(sec as nat);
    assert(time_text_of(t) =~= seq![
        digit_char(h / 10),
        digit_char(h % 10),
        ':',
        digit_char(m / 10),
        digit_char(m % 10),
        ':',
        digit_char(sec / 10),
        digit_char(sec % 10),
    ]);
}

fn push_two_digits(out: &mut Vec<char>, n: u64)
    requires
        n < 100,
    ensures
        final(out)@ == old(out)@ + two_digits(n as nat),
{
    if n < 10 {
        out.push('0');
    }
    let ghost mid = out@;
    push_decimal(out, n);
    assert(out@ =~= old(out)@ + two_digits(n as nat));
}

/// The text "HH:MM:SS" of the UTC time of day of `t`.
pub fn utc_time_text(t: i64) -> (r: Vec<char>)
    ensures
        r@ == time_text_of(t as int),
{
    // a whole number of days that makes every i64 time non-negative
    let shift: i128 = 106751991167301 * 86400;
    let shifted: i128 = t as i128 + shift;
    let s: u64 = (shifted % 86400) as u64;
    proof {
        vstd::arithmetic::div_mod::lemma_mod_multiples_vanish(106751991167301, t as int, 86400);
        assert(86400 * 106751991167301 + t as int == shifted as int);
    }
    let mut out: Vec<char> = Vec::new();
    push_two_digits(&mut out, s / 3600);
    out.push(':');
    push_two_digits(&mut out, (s % 3600) / 60);
    out.push(':');
    push_two_digits(&mut out, s % 60);
    assert(out@ =~= time_text_of(t as int));
    out
}

} // verus!
