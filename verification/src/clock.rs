//! Exchange time (UTC+8): the calendar and clock of Unix timestamps, computed by
//! the `time` crate and reached through the trusted wrappers in this file.

use vstd::prelude::*;

verus! {

/// The earliest Unix timestamp the calendar supports (-9999-01-01 00:00:00 UTC).
pub open spec fn min_timestamp() -> int {
    -377_705_116_800
}

/// The latest Unix timestamp the calendar supports (9999-12-31 23:59:59 UTC).
pub open spec fn max_timestamp() -> int {
    253_402_300_799
}

/// The exchange's offset from UTC, in seconds.
pub open spec fn exchange_offset_seconds() -> int {
    28_800
}

/// The Julian day number of 1970-01-01.
pub open spec fn unix_epoch_julian_day() -> int {
    2_440_588
}

/// Timestamps at the very end of the calendar, whose UTC+8 local time lies past it:
/// moving them to the exchange offset panics.
pub open spec fn past_calendar_end_locally(t: int) -> bool {
    max_timestamp() - exchange_offset_seconds() < t <= max_timestamp()
}

/// Exchange-local calendar day and clock of a moment.
#[derive(Clone, Copy, Debug)]
pub struct ExchangeClock {
    /// The Julian day number of the local date.
    pub julian_day: i32,
    /// 0 for Monday up to 6 for Sunday.
    pub weekday: u8,
    pub hour: u8,
    pub minute: u8,
}

/// The local Julian day of a timestamp at UTC+8.
pub open spec fn local_julian_day(t: int) -> int {
    unix_epoch_julian_day() + (t + exchange_offset_seconds()) / 86_400
}

/// The seconds since local midnight of a timestamp at UTC+8.
pub open spec fn local_second_of_day(t: int) -> int {
    (t + exchange_offset_seconds()) % 86_400
}

/// Whether `c` is the exchange-local day and clock of timestamp `t`.
pub open spec fn is_clock_of(c: ExchangeClock, t: int) -> bool {
    &&& c.julian_day == local_julian_day(t)
    &&& c.weekday == local_julian_day(t) % 7
    &&& c.hour == local_second_of_day(t) / 3_600
    &&& c.minute == (local_second_of_day(t) % 3_600) / 60
}

/// Whether a year is a leap year of the proleptic Gregorian calendar.
pub open spec fn is_leap_year(year: int) -> bool {
    year % 4 == 0 && (year % 100 != 0 || year % 400 == 0)
}

/// The number of days of a month.
pub open spec fn days_in_month(year: int, month: int) -> int {
    if month == 2 {
        if is_leap_year(year) {
            29
        } else {
            28
        }
    } else if month == 4 || month == 6 || month == 9 || month == 11 {
        30
    } else {
        31
    }
}

/// Whether year, month and day form a date of the supported calendar.
pub open spec fn is_calendar_date(year: int, month: int, day: int) -> bool {
    -9999 <= year <= 9999 && 1 <= month <= 12 && 1 <= day <= days_in_month(year, month)
}

/// The days of a year before the first of a month.
pub open spec fn days_before_month(year: int, month: int) -> int {
    let common: int = if month <= 1 {
        0
    } else if month == 2 {
        31
    } else if month == 3 {
        59
    } else if month == 4 {
        90
    } else if month == 5 {
        120
    } else if month == 6 {
        151
    } else if month == 7 {
        181
    } else if month == 8 {
        212
    } else if month == 9 {
        243
    } else if month == 10 {
        273
    } else if month == 11 {
        304
    } else {
        334
    };
    if is_leap_year(year) && month > 2 {
        common + 1
    } else {
        common
    }
}

/// The Julian day number of a proleptic Gregorian date: the days before the year,
/// counted from a year shifted to be non-negative (365¼ a year, less the skipped
/// century leap days), plus the day of the year, moved to the Julian origin.
/// 1970-01-01 is day 2440588 and 2000-01-01 is day 2451545.
pub open spec fn calendar_julian_day(year: int, month: int, day: int) -> int {
    let shifted: int = year + 999_999;
    let century: int = shifted / 100;
    1461 * shifted / 4 - century + century / 4 + days_before_month(year, month) + day
        - 363_521_075
}

/// The lowest `width` decimal digits of `n`, zero-padded on the left.
pub open spec fn padded_digits(n: nat, width: nat) -> Seq<char>
    decreases width,
{
    if width == 0 {
        Seq::empty()
    } else {
        padded_digits(n / 10, (width - 1) as nat).push(crate::decimal::digit_char(n % 10))
    }
}

/// The ISO text of a date: `-` before a negative year, the year's four digits, then
/// the two-digit month and day, joined by `-`.
pub open spec fn date_text(year: int, month: int, day: int) -> Seq<char> {
    let sign: Seq<char> = if year < 0 {
        seq!['-']
    } else {
        Seq::empty()
    };
    let magnitude: int = if year < 0 {
        -year
    } else {
        year
    };
    sign + padded_digits(magnitude as nat, 4) + seq!['-'] + padded_digits(month as nat, 2) + seq![
        '-',
    ] + padded_digits(day as nat, 2)
}

/// The ISO text (`YYYY-MM-DD`) of the date of the supported calendar with a Julian day
/// number; empty when no such date exists.
pub open spec fn julian_day_text(julian_day: int) -> Seq<char> {
    if exists|y: int, m: int, d: int|
        is_calendar_date(y, m, d) && #[trigger] calendar_julian_day(y, m, d) == julian_day {
        let (y, m, d) = choose|y: int, m: int, d: int|
            is_calendar_date(y, m, d) && #[trigger] calendar_julian_day(y, m, d) == julian_day;
        date_text(y, m, d)
    } else {
        Seq::empty()
    }
}

/// The exchange-local (UTC+8) day and clock of a Unix timestamp.
///
/// Calls `time::OffsetDateTime::from_unix_timestamp` and `to_offset` with UTC+8. The
/// contract claims: no result outside the supported calendar; otherwise the local
/// Julian day, weekday, hour and minute obtained by shifting the timestamp eight hours
/// and dividing by whole days, hours and minutes (1970-01-01 is Julian day 2440588, a
/// Thursday).
#[verifier::external_body]
pub(crate) fn exchange_clock(t: i64) -> (r: Option<ExchangeClock>)
    requires
        !past_calendar_end_locally(t as int),
    ensures
        r is Some <==> min_timestamp() <= t <= max_timestamp(),
        r matches Some(c) ==> is_clock_of(c, t as int),
{
    let offset = time::UtcOffset::from_hms(8, 0, 0).unwrap_or(time::UtcOffset::UTC);
    time::OffsetDateTime::from_unix_timestamp(t).ok().map(|d| d.to_offset(offset)).map(|l| ExchangeClock {
        julian_day: l.date().to_julian_day(),
        weekday: l.weekday().number_days_from_monday(),
        hour: l.hour(),
        minute: l.minute(),
    })
}

/// The ISO text of the date with a Julian day number.
///
/// Calls `time::Date::from_julian_day` and prints the date with `Display`; the contract
/// claims the ISO text of the calendar date with that Julian day number, and an empty
/// text when the number lies outside the supported calendar (years -9999 to 9999).
#[verifier::external_body]
pub(crate) fn julian_day_date_text(julian_day: i32) -> (r: String)
    ensures
        r@ == julian_day_text(julian_day as int),
{
    time::Date::from_julian_day(julian_day).map(|d| d.to_string()).unwrap_or_default()
}

/// The moment of an exchange-local (UTC+8) calendar date and clock.
///
/// Calls `time::Date::from_calendar_date`, `time::Time::from_hms` and
/// `PrimitiveDateTime::assume_offset` with UTC+8. The contract claims: a result exactly
/// for a date of the supported calendar and a clock below 24:00:00; then its Julian day
/// number, and the Unix timestamp that day, clock and offset give.
#[verifier::external_body]
pub(crate) fn exchange_instant(year: i32, month: u8, day: u8, hour: u8, minute: u8, second: u8) -> (r:
    Option<(i64, i32)>)
    ensures
        r is Some <==> (is_calendar_date(year as int, month as int, day as int) && hour < 24
            && minute < 60 && second < 60),
        r matches Some((unix, julian)) ==> julian == calendar_julian_day(
            year as int,
            month as int,
            day as int,
        ) && unix == (julian - unix_epoch_julian_day()) * 86_400 + hour * 3_600 + minute * 60
            + second - exchange_offset_seconds(),
{
    let offset = time::UtcOffset::from_hms(8, 0, 0).unwrap_or(time::UtcOffset::UTC);
    let month = time::Month::try_from(month).ok()?;
    let date = time::Date::from_calendar_date(year, month, day).ok()?;
    let clock = time::Time::from_hms(hour, minute, second).ok()?;
    let moment = time::PrimitiveDateTime::new(date, clock).assume_offset(offset);
    Some((moment.unix_timestamp(), moment.date().to_julian_day()))
}

/// The exchange's calendar date (UTC+8) of a Unix timestamp, as `YYYY-MM-DD`; empty
/// outside the supported calendar.
pub fn exchange_day(now_unix: i64) -> (r: String)
    requires
        !past_calendar_end_locally(now_unix as int),
    ensures
        min_timestamp() <= now_unix <= max_timestamp() ==> r@ == julian_day_text(
            local_julian_day(now_unix as int),
        ),
        !(min_timestamp() <= now_unix <= max_timestamp()) ==> r@ == Seq::<char>::empty(),
{
    match exchange_clock(now_unix) {
        Some(c) => julian_day_date_text(c.julian_day),
        None => String::new(),
    }
}

} // verus!
