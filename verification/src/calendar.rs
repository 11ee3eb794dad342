//! Civil dates and the timestamps in file names.

use crate::text::{append_padded, digits_value, lemma_padded_two, lemma_padded_value, padded};
use vstd::prelude::*;
use vstd::string::*;

verus! {

/// A date of the Gregorian calendar.
pub struct Date {
    pub year: int,
    pub month: int,
    pub day: int,
}

pub open spec fn is_leap(y: int) -> bool {
    y % 4 == 0 && (y % 100 != 0 || y % 400 == 0)
}

pub open spec fn days_in_year(y: int) -> int {
    if is_leap(y) {
        366
    } else {
        365
    }
}

pub open spec fn days_in_month(y: int, m: int) -> int {
    if m == 2 {
        if is_leap(y) {
            29
        } else {
            28
        }
    } else if m == 4 || m == 6 || m == 9 || m == 11 {
        30
    } else {
        31
    }
}

/// Days from the first of January to the first of month `m`.
pub open spec fn days_before_month(y: int, m: int) -> int
    decreases m,
{
    if m <= 1 {
        0
    } else {
        days_before_month(y, m - 1) + days_in_month(y, m - 1)
    }
}

/// Leap years from year 1 to year `y`.
pub open spec fn leaps_through(y: int) -> int {
    y / 4 - y / 100 + y / 400
}

/// Days from 1970-01-01 to the first of January of year `y`.
pub open spec fn days_before_year(y: int) -> int {
    365 * (y - 1970) + leaps_through(y - 1) - leaps_through(1969)
}

/// Each year adds its own days.
pub proof fn lemma_days_before_year(y: int)
    ensures
        days_before_year(1970) == 0,
        days_before_year(y + 1) == days_before_year(y) + days_in_year(y),
{
    assert(y / 4 - (y - 1) / 4 == if y % 4 == 0 {
        1int
    } else {
        0
    });
    assert(y / 100 - (y - 1) / 100 == if y % 100 == 0 {
        1int
    } else {
        0
    });
    assert(y / 400 - (y - 1) / 400 == if y % 400 == 0 {
        1int
    } else {
        0
    });
    assert(y % 400 == 0 ==> y % 100 == 0);
    assert(y % 100 == 0 ==> y % 4 == 0);
}

pub open spec fn is_date(t: Date) -> bool {
    1 <= t.month <= 12 && 1 <= t.day <= days_in_month(t.year, t.month)
}

/// Days from 1970-01-01 to the date.
pub open spec fn day_number(t: Date) -> int {
    days_before_year(t.year) + days_before_month(t.year, t.month) + t.day - 1
}

/// The date `days` days after 1970-01-01.
pub open spec fn civil(days: int) -> Date {
    choose|t: Date| is_date(t) && #[trigger] day_number(t) == days
}

proof fn lemma_months(y: int)
    ensures
        days_before_month(y, 1) == 0,
        days_before_month(y, 2) == 31,
        days_before_month(y, 3) == days_in_year(y) - 306,
        days_before_month(y, 4) == days_in_year(y) - 275,
        days_before_month(y, 5) == days_in_year(y) - 245,
        days_before_month(y, 6) == days_in_year(y) - 214,
        days_before_month(y, 7) == days_in_year(y) - 184,
        days_before_month(y, 8) == days_in_year(y) - 153,
        days_before_month(y, 9) == days_in_year(y) - 122,
        days_before_month(y, 10) == days_in_year(y) - 92,
        days_before_month(y, 11) == days_in_year(y) - 61,
        days_before_month(y, 12) == days_in_year(y) - 31,
{
    reveal_with_fuel(days_before_month, 13);
}

/// A date lies in its year, and a later month starts behind it.
proof fn lemma_in_year(t: Date)
    requires
        is_date(t),
    ensures
        days_before_year(t.year) <= day_number(t) < days_before_year(t.year + 1),
{
    lemma_months(t.year);
    lemma_days_before_year(t.year);
}

proof fn lemma_years_in_order(y: int, z: int)
    requires
        y <= z,
    ensures
        days_before_year(y) <= days_before_year(z),
    decreases z - y,
{
    if y < z {
        lemma_years_in_order(y, z - 1);
        lemma_days_before_year(z - 1);
    }
}

proof fn lemma_months_in_order(y: int, m: int, n: int)
    requires
        1 <= m < n,
    ensures
        days_before_month(y, m) + days_in_month(y, m) <= days_before_month(y, n),
    decreases n - m,
{
    if m + 1 < n {
        lemma_months_in_order(y, m, n - 1);
    }
}

/// No two dates have the same day number.
pub proof fn lemma_day_number_unique(s: Date, t: Date)
    requires
        is_date(s),
        is_date(t),
        day_number(s) == day_number(t),
    ensures
        s == t,
{
    lemma_in_year(s);
    lemma_in_year(t);
    if s.year < t.year {
        lemma_years_in_order(s.year + 1, t.year);
    } else if t.year < s.year {
        lemma_years_in_order(t.year + 1, s.year);
    }
    if s.month < t.month {
        lemma_months_in_order(s.year, s.month, t.month);
    } else if t.month < s.month {
        lemma_months_in_order(s.year, t.month, s.month);
    }
}

/// The date of a day is the one with that day number.
pub proof fn lemma_civil_is(t: Date)
    requires
        is_date(t),
    ensures
        civil(day_number(t)) == t,
{
    lemma_day_number_unique(civil(day_number(t)), t);
}

/// The year that starts on the first of March and contains day `doe` of a
/// 400-year era.
proof fn lemma_year_of_era(doe: int, yoe: int)
    requires
        0 <= doe < 146097,
        yoe == (doe - doe / 1460 + doe / 36524 - doe / 146096) / 365,
    ensures
        0 <= yoe < 400,
        0 <= doe - (365 * yoe + yoe / 4 - yoe / 100) <= 365,
        doe - (365 * yoe + yoe / 4 - yoe / 100) == 365 ==> is_leap(yoe + 1),
{
}

/// The date that the era arithmetic finds has the day number it started from.
proof fn lemma_era_arithmetic(days: int)
    ensures
        ({
            let z = days + 719468;
            let era = z / 146097;
            let doe = z - era * 146097;
            let yoe = (doe - doe / 1460 + doe / 36524 - doe / 146096) / 365;
            let doy = doe - (365 * yoe + yoe / 4 - yoe / 100);
            let mp = (5 * doy + 2) / 153;
            let day = doy - (153 * mp + 2) / 5 + 1;
            let month = if mp < 10 {
                mp + 3
            } else {
                mp - 9
            };
            let year = yoe + era * 400 + if month <= 2 {
                1int
            } else {
                0
            };
            let t = Date { year, month, day };
            &&& 0 <= doe < 146097
            &&& 0 <= yoe < 400
            &&& 0 <= doy <= 365
            &&& 0 <= mp <= 11
            &&& is_date(t)
            &&& day_number(t) == days
            &&& civil(days) == t
        }),
{
    let z = days + 719468;
    let era = z / 146097;
    let doe = z - era * 146097;
    let yoe = (doe - doe / 1460 + doe / 36524 - doe / 146096) / 365;
    let doy = doe - (365 * yoe + yoe / 4 - yoe / 100);
    let mp = (5 * doy + 2) / 153;
    let day = doy - (153 * mp + 2) / 5 + 1;
    let month = if mp < 10 {
        mp + 3
    } else {
        mp - 9
    };
    let march_year = yoe + era * 400;
    let year = march_year + if month <= 2 {
        1int
    } else {
        0
    };
    let t = Date { year, month, day };
    assert(0 <= doe < 146097);
    lemma_year_of_era(doe, yoe);
    lemma_march_year(yoe, era);
    lemma_months(year);
    lemma_days_before_year(march_year);
    assert(0 <= mp <= 11);
    assert(is_leap(march_year + 1) == is_leap(yoe + 1));
    assert(doy == 365 ==> is_leap(march_year + 1));
    assert(is_date(t));
    assert(day_number(t) == days);
    lemma_civil_is(t);
}

/// The first of March of the year `yoe` of era `era`, as a day number.
proof fn lemma_march_year(yoe: int, era: int)
    requires
        0 <= yoe < 400,
    ensures
        days_before_year(yoe + era * 400) + days_in_year(yoe + era * 400) - 306 == era * 146097
            + 365 * yoe + yoe / 4 - yoe / 100 - 719468,
        is_leap(yoe + era * 400 + 1) == is_leap(yoe + 1),
{
    let y = yoe + era * 400;
    lemma_days_before_year(y);
    lemma_era_division(yoe, era);
    lemma_era_leap(yoe + 1, era);
    assert(leaps_through(1969) == 477);
    assert(days_before_year(y + 1) == 365 * (y + 1 - 1970) + leaps_through(y) - 477);
}

proof fn lemma_era_division(yoe: int, era: int)
    requires
        0 <= yoe < 400,
    ensures
        leaps_through(yoe + era * 400) == yoe / 4 - yoe / 100 + 97 * era,
{
    let y = yoe + era * 400;
    assert(y / 4 == yoe / 4 + era * 100);
    assert(y / 100 == yoe / 100 + era * 4);
    assert(y / 400 == era);
}

proof fn lemma_era_leap(y: int, era: int)
    ensures
        is_leap(y + era * 400) == is_leap(y),
{
    let z = y + era * 400;
    assert(z % 4 == y % 4);
    assert(z % 100 == y % 100);
    assert(z % 400 == y % 400);
}

/// Civil-date conversion: days since 1970-01-01 to (year, month, day). A year
/// that does not fit keeps its lower 32 bits.
pub fn days_to_ymd(days: i64) -> (r: (i32, u32, u32))
    requires
        days <= i64::MAX - 719468,
    ensures
        r.0 == civil(days as int).year as i32,
        r.1 == civil(days as int).month,
        r.2 == civil(days as int).day,
        is_date(civil(days as int)),
        day_number(civil(days as int)) == days,
{
    proof {
        lemma_era_arithmetic(days as int);
    }
    let z: i64 = days + 719468;
    let era: i64 = if z >= 0 {
        z / 146097
    } else {
        (z - 146096) / 146097
    };
    assert(era == z as int / 146097);
    let doe: u64 = (z - era * 146097) as u64;
    let yoe: u64 = (doe - doe / 1460 + doe / 36524 - doe / 146096) / 365;
    let y: i64 = (yoe as i64) + era * 400;
    let doy: u64 = doe - (365 * yoe + yoe / 4 - yoe / 100);
    let mp: u64 = (5 * doy + 2) / 153;
    let d: u32 = (doy - (153 * mp + 2) / 5 + 1) as u32;
    let m: u32 = if mp < 10 {
        (mp + 3) as u32
    } else {
        (mp - 9) as u32
    };
    let year: i64 = if m <= 2 {
        y + 1
    } else {
        y
    };
    (year as i32, m, d)
}

/// A signed number with zeros behind its sign, at least `width` characters
/// long.
pub open spec fn signed_padded(n: int, width: int) -> Seq<char> {
    if n >= 0 {
        padded(n as nat, width)
    } else {
        seq!['-'] + padded((-n) as nat, width - 1)
    }
}

/// The clock part of a timestamp: hours, minutes and seconds of the day.
pub open spec fn clock_chars(secs: int) -> Seq<char> {
    padded((secs / 3600 % 24) as nat, 2) + padded((secs / 60 % 60) as nat, 2) + padded(
        (secs % 60) as nat,
        2,
    )
}

/// The timestamp of a second since 1970-01-01: `yyyymmdd_hhmmss` in UTC.
pub open spec fn timestamp_chars(secs: int) -> Seq<char> {
    let t = civil(secs / 86400);
    signed_padded((t.year as i32) as int, 4) + padded(t.month as nat, 2) + padded(t.day as nat, 2)
        + seq!['_'] + clock_chars(secs)
}

/// `yyyymmdd_hhmmss`, in UTC, of the given second since 1970-01-01.
pub fn timestamp(secs: u64) -> (r: String)
    ensures
        r@ == timestamp_chars(secs as int),
{
    let mut t: u64 = secs;
    let s: u64 = t % 60;
    t = t / 60;
    let m: u64 = t % 60;
    t = t / 60;
    let h: u64 = t % 24;
    let days: u64 = t / 24;
    assert(days == secs / 86400 && h == secs / 3600 % 24 && m == secs / 60 % 60);
    let (year, month, day) = days_to_ymd(days as i64);
    proof {
        reveal_strlit("-");
        reveal_strlit("_");
    }
    let mut out = String::new();
    if year >= 0 {
        append_padded(&mut out, year as u64, 4);
    } else {
        out.append("-");
        append_padded(&mut out, (-(year as i64)) as u64, 3);
    }
    assert(out@ =~= signed_padded(year as int, 4));
    append_padded(&mut out, month as u64, 2);
    append_padded(&mut out, day as u64, 2);
    out.append("_");
    append_padded(&mut out, h, 2);
    append_padded(&mut out, m, 2);
    append_padded(&mut out, s, 2);
    assert(out@ =~= timestamp_chars(secs as int));
    out
}

proof fn lemma_two_digits_unique(a: nat, b: nat)
    requires
        a < 100,
        b < 100,
        padded(a, 2) == padded(b, 2),
    ensures
        a == b,
{
    lemma_padded_value(a, 2);
    lemma_padded_value(b, 2);
}

/// Two different seconds get two different timestamps, as long as their years
/// fit 32 bits.
pub proof fn lemma_timestamp_unique(a: u64, b: u64)
    requires
        civil(a as int / 86400).year <= i32::MAX,
        civil(b as int / 86400).year <= i32::MAX,
        timestamp_chars(a as int) == timestamp_chars(b as int),
    ensures
        a == b,
{
    let (s, t) = (civil(a as int / 86400), civil(b as int / 86400));
    lemma_era_arithmetic(a as int / 86400);
    lemma_era_arithmetic(b as int / 86400);
    lemma_year_is_positive(a as int / 86400);
    lemma_year_is_positive(b as int / 86400);
    let (x, y) = (timestamp_chars(a as int), timestamp_chars(b as int));
    let (xy, yy) = (padded(s.year as nat, 4), padded(t.year as nat, 4));
    let n = x.len() - 11;
    lemma_timestamp_parts(a);
    lemma_timestamp_parts(b);
    lemma_padded_value(s.year as nat, 4);
    lemma_padded_value(t.year as nat, 4);
    assert(s.year == t.year);
    lemma_two_digits_unique(s.month as nat, t.month as nat);
    lemma_two_digits_unique(s.day as nat, t.day as nat);
    lemma_two_digits_unique((a as int / 3600 % 24) as nat, (b as int / 3600 % 24) as nat);
    lemma_two_digits_unique((a as int / 60 % 60) as nat, (b as int / 60 % 60) as nat);
    lemma_two_digits_unique((a as int % 60) as nat, (b as int % 60) as nat);
    lemma_clock_of_day(a);
    lemma_clock_of_day(b);
}

proof fn lemma_clock_of_day(secs: u64)
    ensures
        secs == secs as int / 86400 * 86400 + secs as int / 3600 % 24 * 3600 + secs as int / 60
            % 60 * 60 + secs as int % 60,
{
    let m = secs as int / 60;
    let h = m / 60;
    assert(h == secs as int / 3600);
    assert(h / 24 == secs as int / 86400);
}

proof fn lemma_year_is_positive(days: int)
    requires
        0 <= days,
    ensures
        civil(days).year >= 1970,
{
    lemma_era_arithmetic(days);
    lemma_in_year(civil(days));
    if civil(days).year < 1970 {
        lemma_years_in_order(civil(days).year + 1, 1970);
        lemma_days_before_year(1970);
    }
}

/// Where the parts of a timestamp stand, counted from its end.
proof fn lemma_timestamp_parts(secs: u64)
    requires
        0 <= civil(secs as int / 86400).year <= i32::MAX,
    ensures
        ({
            let t = civil(secs as int / 86400);
            let x = timestamp_chars(secs as int);
            let n = x.len() - 11;
            &&& n >= 0
            &&& x.take(n) == padded(t.year as nat, 4)
            &&& x.subrange(n, n + 2) == padded(t.month as nat, 2)
            &&& x.subrange(n + 2, n + 4) == padded(t.day as nat, 2)
            &&& x.subrange(n + 5, n + 7) == padded((secs as int / 3600 % 24) as nat, 2)
            &&& x.subrange(n + 7, n + 9) == padded((secs as int / 60 % 60) as nat, 2)
            &&& x.subrange(n + 9, n + 11) == padded((secs as int % 60) as nat, 2)
        }),
{
    let t = civil(secs as int / 86400);
    lemma_era_arithmetic(secs as int / 86400);
    lemma_padded_two(t.month as nat);
    lemma_padded_two(t.day as nat);
    lemma_padded_two((secs as int / 3600 % 24) as nat);
    lemma_padded_two((secs as int / 60 % 60) as nat);
    lemma_padded_two((secs as int % 60) as nat);
    let x = timestamp_chars(secs as int);
    let n = x.len() - 11;
    assert(x.take(n) =~= padded(t.year as nat, 4));
    assert(x.subrange(n, n + 2) =~= padded(t.month as nat, 2));
    assert(x.subrange(n + 2, n + 4) =~= padded(t.day as nat, 2));
    assert(x.subrange(n + 5, n + 7) =~= padded((secs as int / 3600 % 24) as nat, 2));
    assert(x.subrange(n + 7, n + 9) =~= padded((secs as int / 60 % 60) as nat, 2));
    assert(x.subrange(n + 9, n + 11) =~= padded((secs as int % 60) as nat, 2));
}

/// A timestamp reads back: its digits are a date and a clock, which together
/// are the second that it was made for, as long as the year fits 32 bits.
pub proof fn lemma_timestamp_reads(secs: u64)
    requires
        civil(secs as int / 86400).year <= i32::MAX,
    ensures
        ({
            let x = timestamp_chars(secs as int);
            let n = x.len() - 11;
            let t = Date {
                year: digits_value(x.take(n)) as int,
                month: digits_value(x.subrange(n, n + 2)) as int,
                day: digits_value(x.subrange(n + 2, n + 4)) as int,
            };
            let hour = digits_value(x.subrange(n + 5, n + 7));
            let minute = digits_value(x.subrange(n + 7, n + 9));
            let second = digits_value(x.subrange(n + 9, n + 11));
            &&& n >= 4
            &&& x[n + 4] == '_'
            &&& 1 <= t.month <= 12 && 1 <= t.day <= 31 && is_date(t)
            &&& hour < 24 && minute < 60 && second < 60
            &&& day_number(t) * 86400 + hour * 3600 + minute * 60 + second == secs
        }),
{
    let t = civil(secs as int / 86400);
    let x = timestamp_chars(secs as int);
    let n = x.len() - 11;
    lemma_era_arithmetic(secs as int / 86400);
    lemma_year_is_positive(secs as int / 86400);
    lemma_timestamp_parts(secs);
    lemma_padded_value(t.year as nat, 4);
    lemma_padded_value(t.month as nat, 2);
    lemma_padded_value(t.day as nat, 2);
    lemma_padded_value((secs as int / 3600 % 24) as nat, 2);
    lemma_padded_value((secs as int / 60 % 60) as nat, 2);
    lemma_padded_value((secs as int % 60) as nat, 2);
    lemma_padded_two(t.month as nat);
    lemma_padded_two(t.day as nat);
    lemma_padded_two((secs as int / 3600 % 24) as nat);
    lemma_padded_two((secs as int / 60 % 60) as nat);
    lemma_padded_two((secs as int % 60) as nat);
    lemma_clock_of_day(secs);
    assert(x.take(n).len() == n);
}

} // verus!
