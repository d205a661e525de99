//! UTC dates and timestamps.

use vstd::arithmetic::div_mod::lemma_mod_multiples_vanish;
use vstd::prelude::*;

use crate::text::{join3, lemma_parsed_padded, numeral, padded, padded_text, parsed};

verus! {

// ---------------------------------------------------------------------------
// Dates
// ---------------------------------------------------------------------------

/// Whether a year of the Gregorian calendar has a leap day.
pub open spec fn is_leap(year: int) -> bool {
    year % 4 == 0 && (year % 100 != 0 || year % 400 == 0)
}

/// The number of leap days up to the end of a year.
pub open spec fn leap_days(year: int) -> int {
    year / 4 - year / 100 + year / 400
}

/// The number of days of a month.
pub open spec fn month_length(year: int, month: int) -> int {
    if month == 2 {
        if is_leap(year) {
            29
        } else {
            28
        }
    } else if month == 4 || month == 6 || month == 9 || month == 11 {
        30
    } else {
        31
    }
}

/// The number of days of a year before the first of a month.
pub open spec fn days_before_month(year: int, month: int) -> int
    decreases month,
{
    if month <= 1 {
        0
    } else {
        days_before_month(year, month - 1) + month_length(year, month - 1)
    }
}

/// The number of days from the first of January 1970 to the first of a year.
pub open spec fn days_before_year(year: int) -> int {
    365 * (year - 1970) + leap_days(year - 1) - leap_days(1969)
}

/// The number of days from the first of January 1970 to a date.
pub open spec fn day_number(year: int, month: int, day: int) -> int {
    days_before_year(year) + days_before_month(year, month) + day - 1
}

/// Whether there is such a date.
pub open spec fn is_date(year: int, month: int, day: int) -> bool {
    1 <= month <= 12 && 1 <= day <= month_length(year, month)
}

/// The leap days of a year of a 400-year era.
proof fn lemma_leap_days(era: int, year: int)
    requires
        0 <= year < 400,
    ensures
        leap_days(year + 400 * era) == 97 * era + year / 4 - year / 100,
{
    assert((year + 400 * era) / 4 == year / 4 + 100 * era);
    assert((year + 400 * era) / 100 == year / 100 + 4 * era);
    assert((year + 400 * era) / 400 == era);
}

/// A quotient grows by one where the remainder returns to zero.
#[verifier::spinoff_prover]
proof fn lemma_quotients_step(year: int)
    ensures
        year / 4 == (year - 1) / 4 + (if year % 4 == 0 {
            1int
        } else {
            0
        }),
        year / 100 == (year - 1) / 100 + (if year % 100 == 0 {
            1int
        } else {
            0
        }),
        year / 400 == (year - 1) / 400 + (if year % 400 == 0 {
            1int
        } else {
            0
        }),
{
}

/// A multiple of 400 is one of 100, and a multiple of 100 is one of 4.
#[verifier::spinoff_prover]
proof fn lemma_multiples(year: int)
    ensures
        year % 400 == 0 ==> year % 100 == 0,
        year % 100 == 0 ==> year % 4 == 0,
{
}

/// A leap year adds one leap day, another year none.
proof fn lemma_leap_step(year: int)
    ensures
        leap_days(year) == leap_days(year - 1) + (if is_leap(year) {
            1int
        } else {
            0
        }),
{
    lemma_quotients_step(year);
    lemma_multiples(year);
}

/// Leap years repeat every 400 years.
proof fn lemma_leap_repeats(era: int, year: int)
    ensures
        is_leap(year + 400 * era) <==> is_leap(year),
{
    lemma_mod_multiples_vanish(100 * era, year, 4);
    lemma_mod_multiples_vanish(4 * era, year, 100);
    lemma_mod_multiples_vanish(era, year, 400);
}

/// Years are counted from the first of March of the year 0.
proof fn lemma_days_before_march(year: int)
    ensures
        days_before_year(year) + days_before_month(year, 3) == 365 * year + leap_days(year)
            - 719_468,
        days_before_year(year + 1) == 365 * year + leap_days(year) - 719_468 + 306,
{
    reveal_with_fuel(days_before_month, 3);
    assert(leap_days(1969) == 477);
    lemma_leap_step(year);
}

/// The year of a 400-year era, counted from March, in which a day of it lies.
proof fn lemma_year_of_era(doe: int, yoe: int)
    requires
        0 <= doe < 146097,
        yoe == (doe - doe / 1460 + doe / 36524 - doe / 146096) / 365,
    ensures
        0 <= yoe < 400,
        0 <= doe - (365 * yoe + yoe / 4 - yoe / 100) <= 365,
        doe - (365 * yoe + yoe / 4 - yoe / 100) == 365 ==> is_leap(yoe + 1),
{
}

/// The month and the day in it of a day of a year that begins in March.
proof fn lemma_month_of_year(year: int, doy: int, mp: int)
    requires
        0 <= doy <= 365,
        doy == 365 ==> is_leap(year + 1),
        mp == (5 * doy + 2) / 153,
    ensures
        0 <= mp < 12,
        mp < 10 ==> {
            let day = doy - (153 * mp + 2) / 5 + 1;
            is_date(year, mp + 3, day) && days_before_month(year, mp + 3) + day - 1
                == days_before_month(year, 3) + doy
        },
        mp >= 10 ==> {
            let day = doy - (153 * mp + 2) / 5 + 1;
            is_date(year + 1, mp - 9, day) && days_before_month(year + 1, mp - 9) + day - 1 == doy
                - 306
        },
{
    reveal_with_fuel(days_before_month, 12);
    if mp < 6 {
        assert(mp == 0 || mp == 1 || mp == 2 || mp == 3 || mp == 4 || mp == 5);
    } else {
        assert(mp == 6 || mp == 7 || mp == 8 || mp == 9 || mp == 10 || mp == 11);
    }
}

/// Civil date from days since epoch (Howard Hinnant's algorithm).
pub fn civil_from_days(z: i64) -> (r: (i64, u32, u32))
    requires
        z <= i64::MAX - 719_468,
    ensures
        is_date(r.0 as int, r.1 as int, r.2 as int),
        day_number(r.0 as int, r.1 as int, r.2 as int) == z,
{
    let z = z + 719_468;
    let era: i64 = if z >= 0 {
        z / 146_097
    } else {
        -1 - (-1 - z) / 146_097
    };
    let doe: u64 = (z - era * 146_097) as u64;
    let yoe: u64 = (doe - doe / 1460 + doe / 36_524 - doe / 146_096) / 365;
    proof {
        lemma_year_of_era(doe as int, yoe as int);
    }
    let y: i64 = yoe as i64 + era * 400;
    let doy: u64 = doe - (365 * yoe + yoe / 4 - yoe / 100);
    let mp: u64 = (5 * doy + 2) / 153;
    proof {
        lemma_leap_days(era as int, yoe as int);
        lemma_leap_repeats(era as int, yoe + 1);
        lemma_month_of_year(y as int, doy as int, mp as int);
        lemma_days_before_march(y as int);
    }
    let d: u32 = (doy - (153 * mp + 2) / 5 + 1) as u32;
    let m: u32 = (if mp < 10 {
        mp + 3
    } else {
        mp - 9
    }) as u32;
    (if m <= 2 {
        y + 1
    } else {
        y
    }, m, d)
}

/// Later years begin later.
proof fn lemma_years_ascend(a: int, b: int)
    requires
        a <= b,
    ensures
        days_before_year(b) >= days_before_year(a) + 365 * (b - a),
    decreases b - a,
{
    if a < b {
        lemma_years_ascend(a, b - 1);
        lemma_leap_step(b - 1);
    }
}

/// Later months begin later, and a date lies in its month.
proof fn lemma_months_ascend(year: int, a: int, b: int)
    requires
        1 <= a < b <= 13,
    ensures
        days_before_month(year, a) + month_length(year, a) <= days_before_month(year, b),
    decreases b - a,
{
    if a + 1 < b {
        lemma_months_ascend(year, a, b - 1);
    }
}

/// A date lies in its year.
proof fn lemma_date_in_year(year: int, month: int, day: int)
    requires
        is_date(year, month, day),
    ensures
        days_before_year(year) <= day_number(year, month, day) < days_before_year(year + 1),
        0 <= days_before_month(year, month),
{
    lemma_months_ascend(year, month, 13);
    if month > 1 {
        lemma_months_ascend(year, 1, month);
    }
    reveal_with_fuel(days_before_month, 13);
    lemma_leap_step(year);
}

/// A day has one date: two dates with the same number are the same.
pub proof fn law_a_day_has_one_date(
    year_a: int,
    month_a: int,
    day_a: int,
    year_b: int,
    month_b: int,
    day_b: int,
)
    requires
        is_date(year_a, month_a, day_a),
        is_date(year_b, month_b, day_b),
        day_number(year_a, month_a, day_a) == day_number(year_b, month_b, day_b),
    ensures
        year_a == year_b,
        month_a == month_b,
        day_a == day_b,
{
    lemma_date_in_year(year_a, month_a, day_a);
    lemma_date_in_year(year_b, month_b, day_b);
    if year_a < year_b {
        lemma_years_ascend(year_a + 1, year_b);
    } else if year_b < year_a {
        lemma_years_ascend(year_b + 1, year_a);
    } else if month_a < month_b {
        lemma_months_ascend(year_a, month_a, month_b);
    } else if month_b < month_a {
        lemma_months_ascend(year_a, month_b, month_a);
    }
}

// ---------------------------------------------------------------------------
// Timestamps
// ---------------------------------------------------------------------------

/// How a date and a time of day are written: `YYYYMMDD-HH:MM:SS`.
pub open spec fn written_timestamp(year: nat, month: nat, day: nat, second: nat) -> Seq<char> {
    padded(year, 4) + padded(month, 2) + padded(day, 2) + "-"@ + padded(second / 3600, 2) + ":"@
        + padded(second % 3600 / 60, 2) + ":"@ + padded(second % 60, 2)
}

/// A text is the timestamp of `secs` seconds since the epoch.
pub open spec fn is_timestamp(text: Seq<char>, secs: u64) -> bool {
    exists|year: nat, month: nat, day: nat| #[trigger]
        is_date(year as int, month as int, day as int) && day_number(
            year as int,
            month as int,
            day as int,
        ) == secs / 86_400 && text == written_timestamp(year, month, day, (secs % 86_400) as nat)
}

/// The timestamp of `secs` seconds since the epoch, in UTC.
pub fn format_timestamp(secs: u64) -> (r: String)
    ensures
        is_timestamp(r@, secs),
{
    let days: u64 = secs / 86_400;
    let (year, month, day) = civil_from_days(days as i64);
    proof {
        lemma_date_in_year(year as int, month as int, day as int);
        if year < 1970 {
            lemma_years_ascend(year + 1, 1970);
        }
    }
    let rem: u64 = secs % 86_400;
    let date = join3(
        padded_text(year as u64, 4).as_str(),
        padded_text(month as u64, 2).as_str(),
        padded_text(day as u64, 2).as_str(),
    );
    let hours = join3(date.as_str(), "-", padded_text(rem / 3600, 2).as_str());
    let minutes = join3(hours.as_str(), ":", padded_text(rem % 3600 / 60, 2).as_str());
    let r = join3(minutes.as_str(), ":", padded_text(rem % 60, 2).as_str());
    proof {
        assert(r@ == written_timestamp(year as nat, month as nat, day as nat, rem as nat));
        assert(is_date((year as nat) as int, (month as nat) as int, (day as nat) as int));
    }
    r
}

/// `SystemTime::elapsed` of std, on the epoch: the time since then, or `None` if
/// the clock is set before it. It reads the machine's clock, so nothing is said
/// of the result.
#[verifier::external_body]
fn epoch_elapsed() -> (r: Option<core::time::Duration>) {
    std::time::UNIX_EPOCH.elapsed().ok()
}

/// `Duration::as_secs` of std. Only durations of the machine's clock are asked,
/// so nothing is said of the result.
pub assume_specification[ core::time::Duration::as_secs ](duration: &core::time::Duration) -> u64;

/// `Duration::subsec_nanos` of std: always below one second.
pub assume_specification[ core::time::Duration::subsec_nanos ](
    duration: &core::time::Duration,
) -> (r: u32)
    ensures
        r < 1_000_000_000,
;

/// `epoch_elapsed` may read this from the clock.
pub closed spec fn is_reading(reading: Option<core::time::Duration>) -> bool {
    call_ensures(epoch_elapsed, (), reading)
}

/// `Duration::as_secs` may give this number for a duration.
pub open spec fn has_seconds(duration: core::time::Duration, secs: u64) -> bool {
    call_ensures(core::time::Duration::as_secs, (&duration,), secs)
}

/// `Duration::subsec_nanos` may give this number for a duration.
pub open spec fn has_nanos(duration: core::time::Duration, nanos: u32) -> bool {
    call_ensures(core::time::Duration::subsec_nanos, (&duration,), nanos)
}

/// The clock may show this many seconds since the epoch: those of a reading, 0 if
/// it is set before the epoch.
pub open spec fn is_clock_seconds(secs: u64) -> bool {
    exists|reading: Option<core::time::Duration>| #[trigger]
        is_reading(reading) && match reading {
            Some(elapsed) => has_seconds(elapsed, secs),
            None => secs == 0,
        }
}

/// The clock may show this many nanoseconds of the current second: those of a
/// reading, 0 if it is set before the epoch.
pub open spec fn is_clock_nanos(nanos: u32) -> bool {
    exists|reading: Option<core::time::Duration>| #[trigger]
        is_reading(reading) && match reading {
            Some(elapsed) => has_nanos(elapsed, nanos),
            None => nanos == 0,
        }
}

/// A text is the timestamp of what the clock may show.
pub open spec fn is_clock_time(text: Seq<char>) -> bool {
    exists|secs: u64| #[trigger] is_clock_seconds(secs) && is_timestamp(text, secs)
}

/// The seconds since the epoch; 0 if the clock is set before it.
fn clock_seconds() -> (r: u64)
    ensures
        is_clock_seconds(r),
{
    let reading = epoch_elapsed();
    assert(is_reading(reading));
    match reading {
        Some(elapsed) => elapsed.as_secs(),
        None => 0,
    }
}

/// The nanoseconds of the current second; 0 if the clock is set before the epoch.
pub fn clock_nanos() -> (r: u32)
    ensures
        r < 1_000_000_000,
        is_clock_nanos(r),
{
    let reading = epoch_elapsed();
    assert(is_reading(reading));
    match reading {
        Some(elapsed) => elapsed.subsec_nanos(),
        None => 0,
    }
}

/// The current time, `YYYYMMDD-HH:MM:SS` in UTC.
pub fn timestamp_now() -> (r: String)
    ensures
        is_clock_time(r@),
{
    format_timestamp(clock_seconds())
}

/// Short numbers fill their width exactly.
proof fn lemma_padded_width(n: nat, width: nat)
    requires
        (width == 2 && n < 100) || (width == 4 && n < 10_000),
    ensures
        padded(n, width).len() == width,
{
    reveal_with_fuel(numeral, 4);
}

/// Up to the end of the year 9999 a timestamp has 17 characters, with a hyphen
/// between date and time.
pub proof fn law_timestamp_shape(text: Seq<char>, secs: u64)
    requires
        is_timestamp(text, secs),
        secs < 253_402_300_800,
    ensures
        text.len() == 17,
        text[8] == '-',
{
    reveal_strlit("-");
    reveal_strlit(":");
    let (year, month, day) = choose|year: nat, month: nat, day: nat| #[trigger]
        is_date(year as int, month as int, day as int) && day_number(
            year as int,
            month as int,
            day as int,
        ) == secs / 86_400 && text == written_timestamp(year, month, day, (secs % 86_400) as nat);
    lemma_date_in_year(year as int, month as int, day as int);
    if year >= 10_000 {
        lemma_years_ascend(10_000, year as int);
        assert(leap_days(9999) == 2424);
        assert(leap_days(1969) == 477);
    }
    let second = (secs % 86_400) as nat;
    lemma_padded_width(year, 4);
    lemma_padded_width(month, 2);
    lemma_padded_width(day, 2);
    lemma_padded_width(second / 3600, 2);
    lemma_padded_width(second % 3600 / 60, 2);
    lemma_padded_width(second % 60, 2);
    let date = padded(year, 4) + padded(month, 2) + padded(day, 2);
    assert((date + "-"@)[8] == '-');
}

/// Days follow one another as the calendar has them, from the first of January 1970
/// on: the next day of a month, the first day of the next month behind the last one,
/// and the first day of the next year behind the last of December. Months have their
/// usual lengths, and February has a day more in leap years.
pub proof fn law_days_follow_one_another(year: int, month: int, day: int)
    requires
        is_date(year, month, day),
    ensures
        day_number(1970, 1, 1) == 0,
        is_date(year, month, day + 1) ==> day_number(year, month, day + 1) == day_number(
            year,
            month,
            day,
        ) + 1,
        !is_date(year, month, day + 1) && month < 12 ==> day_number(year, month + 1, 1)
            == day_number(year, month, day) + 1,
        !is_date(year, month, day + 1) && month == 12 ==> day_number(year + 1, 1, 1)
            == day_number(year, month, day) + 1,
        month == 2 ==> (is_date(year, month, 29) <==> year % 4 == 0 && (year % 100 != 0 || year
            % 400 == 0)) && is_date(year, month, 28) && !is_date(year, month, 30),
        month == 4 || month == 6 || month == 9 || month == 11 ==> is_date(year, month, 30)
            && !is_date(year, month, 31),
        month == 1 || month == 3 || month == 5 || month == 7 || month == 8 || month == 10 || month
            == 12 ==> is_date(year, month, 31) && !is_date(year, month, 32),
{
    reveal_with_fuel(days_before_month, 13);
    lemma_leap_step(year);
}

/// The parts of a timestamp stand in their places.
#[verifier::spinoff_prover]
proof fn lemma_places(
    year: Seq<char>,
    month: Seq<char>,
    day: Seq<char>,
    hour: Seq<char>,
    minute: Seq<char>,
    second: Seq<char>,
)
    requires
        year.len() == 4,
        month.len() == 2,
        day.len() == 2,
        hour.len() == 2,
        minute.len() == 2,
        second.len() == 2,
    ensures
        ({
            let text = year + month + day + "-"@ + hour + ":"@ + minute + ":"@ + second;
            &&& text.len() == 17
            &&& text[8] == '-'
            &&& text[11] == ':'
            &&& text[14] == ':'
            &&& text.subrange(0, 4) == year
            &&& text.subrange(4, 6) == month
            &&& text.subrange(6, 8) == day
            &&& text.subrange(9, 11) == hour
            &&& text.subrange(12, 14) == minute
            &&& text.subrange(15, 17) == second
        }),
{
    reveal_strlit("-");
    reveal_strlit(":");
    let text = year + month + day + "-"@ + hour + ":"@ + minute + ":"@ + second;
    assert(text.subrange(0, 4) =~= year);
    assert(text.subrange(4, 6) =~= month);
    assert(text.subrange(6, 8) =~= day);
    assert(text.subrange(9, 11) =~= hour);
    assert(text.subrange(12, 14) =~= minute);
    assert(text.subrange(15, 17) =~= second);
}

/// A day before the year 10000 is of a year of at most four digits.
#[verifier::spinoff_prover]
proof fn lemma_year_has_four_digits(year: int, month: int, day: int)
    requires
        is_date(year, month, day),
        day_number(year, month, day) < 2_932_897,
    ensures
        year < 10_000,
        month < 100,
        day < 100,
{
    lemma_date_in_year(year, month, day);
    if year >= 10_000 {
        lemma_years_ascend(10_000, year);
        assert(leap_days(9999) == 2424);
        assert(leap_days(1969) == 477);
    }
}

/// The parts of a time of day are those of the time.
#[verifier::spinoff_prover]
proof fn lemma_time_of_day(secs: nat)
    ensures
        secs % 86_400 / 3600 < 24,
        secs % 86_400 % 3600 == secs % 3600,
        secs % 86_400 % 60 == secs % 60,
        secs % 3600 / 60 < 60,
{
}

/// A written timestamp reads back.
#[verifier::spinoff_prover]
proof fn lemma_written_reads_back(year: nat, month: nat, day: nat, second: nat)
    requires
        year < 10_000,
        month < 100,
        day < 100,
        second / 3600 < 100,
        second % 3600 / 60 < 100,
        second % 60 < 100,
    ensures
        ({
            let text = written_timestamp(year, month, day, second);
            &&& text.len() == 17
            &&& text[8] == '-'
            &&& text[11] == ':'
            &&& text[14] == ':'
            &&& parsed(text.subrange(0, 4), 9999) == Some(year)
            &&& parsed(text.subrange(4, 6), 99) == Some(month)
            &&& parsed(text.subrange(6, 8), 99) == Some(day)
            &&& parsed(text.subrange(9, 11), 99) == Some(second / 3600)
            &&& parsed(text.subrange(12, 14), 99) == Some(second % 3600 / 60)
            &&& parsed(text.subrange(15, 17), 99) == Some(second % 60)
        }),
{
    let hour = second / 3600;
    let minute = second % 3600 / 60;
    let rest = second % 60;
    lemma_padded_width(year, 4);
    lemma_padded_width(month, 2);
    lemma_padded_width(day, 2);
    lemma_padded_width(hour, 2);
    lemma_padded_width(minute, 2);
    lemma_padded_width(rest, 2);
    lemma_parsed_padded(year, 4, 9999);
    lemma_parsed_padded(month, 2, 99);
    lemma_parsed_padded(day, 2, 99);
    lemma_parsed_padded(hour, 2, 99);
    lemma_parsed_padded(minute, 2, 99);
    lemma_parsed_padded(rest, 2, 99);
    lemma_places(
        padded(year, 4),
        padded(month, 2),
        padded(day, 2),
        padded(hour, 2),
        padded(minute, 2),
        padded(rest, 2),
    );
}

/// A timestamp reads back: the hour, the minute and the second of the day stand in
/// their places, and the date is that of the day.
#[verifier::spinoff_prover]
pub proof fn law_timestamp_reads_back(secs: u64, text: String)
    requires
        call_ensures(format_timestamp, (secs,), text),
        secs < 253_402_300_800,
    ensures
        text@.len() == 17,
        text@[8] == '-',
        text@[11] == ':',
        text@[14] == ':',
        parsed(text@.subrange(9, 11), 99) == Some((secs % 86_400 / 3600) as nat),
        parsed(text@.subrange(12, 14), 99) == Some((secs % 3600 / 60) as nat),
        parsed(text@.subrange(15, 17), 99) == Some((secs % 60) as nat),
        exists|year: nat, month: nat, day: nat| #[trigger]
            is_date(year as int, month as int, day as int) && day_number(
                year as int,
                month as int,
                day as int,
            ) == secs / 86_400 && parsed(text@.subrange(0, 4), 9999) == Some(year) && parsed(
                text@.subrange(4, 6),
                99,
            ) == Some(month) && parsed(text@.subrange(6, 8), 99) == Some(day),
{
    let (year, month, day) = choose|year: nat, month: nat, day: nat| #[trigger]
        is_date(year as int, month as int, day as int) && day_number(
            year as int,
            month as int,
            day as int,
        ) == secs / 86_400 && text@ == written_timestamp(year, month, day, (secs % 86_400) as nat);
    lemma_year_has_four_digits(year as int, month as int, day as int);
    lemma_time_of_day(secs as nat);
    lemma_written_reads_back(year, month, day, (secs % 86_400) as nat);
}

} // verus!
