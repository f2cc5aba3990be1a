//! Calendar arithmetic for the export's time fields: parsing user-entered
//! `DD/MM/YYYY HH:MM:SS` strings to Unix timestamps, and rendering a row's
//! timestamp back as the `DD/MM/YY,HH:MM:SS` fields of an output line.
//!
//! All dates are proleptic Gregorian, interpreted as UTC.

use vstd::arithmetic::div_mod::lemma_div_is_ordered;
use vstd::prelude::*;

use crate::digits::{digit_char, push_two_digits, two_digit_seq};
use crate::ExportError;

verus! {

pub open spec fn is_leap_year(y: int) -> bool {
    (y % 4 == 0 && y % 100 != 0) || y % 400 == 0
}

pub open spec fn days_in_year(y: int) -> int {
    if is_leap_year(y) {
        366
    } else {
        365
    }
}

pub open spec fn days_in_month(y: int, m: int) -> int {
    if m == 2 {
        if is_leap_year(y) {
            29
        } else {
            28
        }
    } else if m == 4 || m == 6 || m == 9 || m == 11 {
        30
    } else {
        31
    }
}

/// Days in all years before `y`, counted from year 0.
pub open spec fn days_before_year(y: int) -> int
    decreases y,
{
    if y <= 0 {
        0
    } else {
        days_before_year(y - 1) + days_in_year(y - 1)
    }
}

/// Days in all months of year `y` before month `m`.
pub open spec fn days_before_month(y: int, m: int) -> int
    decreases m,
{
    if m <= 1 {
        0
    } else {
        days_before_month(y, m - 1) + days_in_month(y, m - 1)
    }
}

/// A calendar date and time of day that the fixed input format can denote.
pub open spec fn valid_civil(y: int, m: int, d: int, h: int, mi: int, s: int) -> bool {
    0 <= y <= 9999 && 1 <= m <= 12 && 1 <= d <= days_in_month(y, m) && 0 <= h < 24 && 0 <= mi < 60
        && 0 <= s < 60
}

/// Days between the Unix epoch and the civil date (negative before 1970).
pub open spec fn epoch_days(y: int, m: int, d: int) -> int {
    days_before_year(y) + days_before_month(y, m) + (d - 1) - days_before_year(1970)
}

/// Seconds between the Unix epoch and the civil date and time of day.
pub open spec fn civil_timestamp(y: int, m: int, d: int, h: int, mi: int, s: int) -> int {
    epoch_days(y, m, d) * 86400 + h * 3600 + mi * 60 + s
}

proof fn lemma_days_before_year_bounds(y: int)
    requires
        y >= 0,
    ensures
        365 * y <= days_before_year(y) <= 366 * y,
    decreases y,
{
    if y > 0 {
        lemma_days_before_year_bounds(y - 1);
    }
}

proof fn lemma_days_before_month_bounds(y: int, m: int)
    requires
        m >= 1,
    ensures
        0 <= days_before_month(y, m) <= 31 * (m - 1),
    decreases m,
{
    if m > 1 {
        lemma_days_before_month_bounds(y, m - 1);
    }
}

/// The twelve months of a year add up to its length.
proof fn lemma_months_cover_year(y: int)
    ensures
        days_before_month(y, 13) == days_in_year(y),
{
    reveal_with_fuel(days_before_month, 13);
}

fn is_leap_year_x(y: u64) -> (r: bool)
    ensures
        r == is_leap_year(y as int),
{
    (y % 4 == 0 && y % 100 != 0) || y % 400 == 0
}

fn days_in_month_x(y: u64, m: u64) -> (r: u64)
    ensures
        r == days_in_month(y as int, m as int),
{
    if m == 2 {
        if is_leap_year_x(y) {
            29
        } else {
            28
        }
    } else if m == 4 || m == 6 || m == 9 || m == 11 {
        30
    } else {
        31
    }
}

/// Days in all years before `y`, counted from year 0.
fn days_before_year_x(y: u64) -> (r: u64)
    requires
        y <= 9999,
    ensures
        r == days_before_year(y as int),
{
    let mut acc: u64 = 0;
    let mut i: u64 = 0;
    while i < y
        invariant
            i <= y <= 9999,
            acc == days_before_year(i as int),
            acc <= 366 * i,
        decreases y - i,
    {
        if is_leap_year_x(i) {
            acc = acc + 366;
        } else {
            acc = acc + 365;
        }
        i = i + 1;
        proof {
            lemma_days_before_year_bounds(i as int);
        }
    }
    acc
}

/// Days in all months of year `y` before month `m`.
fn days_before_month_x(y: u64, m: u64) -> (r: u64)
    requires
        1 <= m <= 12,
    ensures
        r == days_before_month(y as int, m as int),
{
    let mut acc: u64 = 0;
    let mut i: u64 = 1;
    while i < m
        invariant
            1 <= i <= m <= 12,
            acc == days_before_month(y as int, i as int),
            acc <= 31 * (i - 1),
        decreases m - i,
    {
        acc = acc + days_in_month_x(y, i);
        i = i + 1;
        proof {
            lemma_days_before_month_bounds(y as int, i as int);
        }
    }
    acc
}

// -------------------------------------------------------------------------
// Parsing `DD/MM/YYYY HH:MM:SS`
// -------------------------------------------------------------------------
pub open spec fn is_digit(c: char) -> bool {
    48 <= c as int <= 57
}

pub open spec fn digit_val(c: char) -> int {
    c as int - 48
}

/// Character-level shape of a `DD/MM/YYYY HH:MM:SS` string.
pub open spec fn well_formed_datetime(s: Seq<char>) -> bool {
    s.len() == 19 && is_digit(s[0]) && is_digit(s[1]) && s[2] == '/' && is_digit(s[3]) && is_digit(
        s[4],
    ) && s[5] == '/' && is_digit(s[6]) && is_digit(s[7]) && is_digit(s[8]) && is_digit(s[9]) && s[10]
        == ' ' && is_digit(s[11]) && is_digit(s[12]) && s[13] == ':' && is_digit(s[14]) && is_digit(
        s[15],
    ) && s[16] == ':' && is_digit(s[17]) && is_digit(s[18])
}

pub open spec fn two_at(s: Seq<char>, i: int) -> int {
    digit_val(s[i]) * 10 + digit_val(s[i + 1])
}

pub open spec fn four_at(s: Seq<char>, i: int) -> int {
    two_at(s, i) * 100 + two_at(s, i + 2)
}

pub open spec fn parsed_day(s: Seq<char>) -> int {
    two_at(s, 0)
}

pub open spec fn parsed_month(s: Seq<char>) -> int {
    two_at(s, 3)
}

pub open spec fn parsed_year(s: Seq<char>) -> int {
    four_at(s, 6)
}

pub open spec fn parsed_hour(s: Seq<char>) -> int {
    two_at(s, 11)
}

pub open spec fn parsed_minute(s: Seq<char>) -> int {
    two_at(s, 14)
}

pub open spec fn parsed_second(s: Seq<char>) -> int {
    two_at(s, 17)
}

/// The string is well formed and denotes an existing date and time of day.
pub open spec fn datetime_parses(s: Seq<char>) -> bool {
    well_formed_datetime(s) && valid_civil(
        parsed_year(s),
        parsed_month(s),
        parsed_day(s),
        parsed_hour(s),
        parsed_minute(s),
        parsed_second(s),
    )
}

/// The Unix timestamp a well-formed string denotes.
pub open spec fn parsed_timestamp(s: Seq<char>) -> int {
    civil_timestamp(
        parsed_year(s),
        parsed_month(s),
        parsed_day(s),
        parsed_hour(s),
        parsed_minute(s),
        parsed_second(s),
    )
}

/// Reads the two-digit number at character position `i`, if both characters
/// are digits.
fn read_two(s: &str, i: usize) -> (r: Option<u64>)
    requires
        i + 2 <= s@.len(),
        s@.len() <= usize::MAX,
    ensures
        r is Some <==> is_digit(s@[i as int]) && is_digit(s@[i as int + 1]),
        r is Some ==> r->0 == two_at(s@, i as int) && r->0 <= 99,
{
    let v0 = s.get_char(i) as u64;
    let v1 = s.get_char(i + 1) as u64;
    if 48 <= v0 && v0 <= 57 && 48 <= v1 && v1 <= 57 {
        Some((v0 - 48) * 10 + (v1 - 48))
    } else {
        None
    }
}

/// Parses a `DD/MM/YYYY HH:MM:SS` string to the Unix timestamp of that UTC
/// date and time. Returns `DateParse` exactly when the string does not match
/// the format or does not denote an existing date and time of day.
pub fn parse_datetime(s: &str) -> (r: Result<i64, ExportError>)
    ensures
        r is Ok <==> datetime_parses(s@),
        r is Ok ==> r->Ok_0 == parsed_timestamp(s@),
        r is Err ==> r->Err_0 == ExportError::DateParse,
{
    if s.unicode_len() != 19 {
        return Err(ExportError::DateParse);
    }
    if !(s.get_char(2) == '/' && s.get_char(5) == '/' && s.get_char(10) == ' ' && s.get_char(13)
        == ':' && s.get_char(16) == ':') {
        return Err(ExportError::DateParse);
    }
    let day = match read_two(s, 0) {
        Some(v) => v,
        None => { return Err(ExportError::DateParse) },
    };
    let month = match read_two(s, 3) {
        Some(v) => v,
        None => { return Err(ExportError::DateParse) },
    };
    let year_hi = match read_two(s, 6) {
        Some(v) => v,
        None => { return Err(ExportError::DateParse) },
    };
    let year_lo = match read_two(s, 8) {
        Some(v) => v,
        None => { return Err(ExportError::DateParse) },
    };
    let hour = match read_two(s, 11) {
        Some(v) => v,
        None => { return Err(ExportError::DateParse) },
    };
    let minute = match read_two(s, 14) {
        Some(v) => v,
        None => { return Err(ExportError::DateParse) },
    };
    let second = match read_two(s, 17) {
        Some(v) => v,
        None => { return Err(ExportError::DateParse) },
    };
    let year = year_hi * 100 + year_lo;
    if !(1 <= month && month <= 12) {
        return Err(ExportError::DateParse);
    }
    if !(1 <= day && day <= days_in_month_x(year, month)) {
        return Err(ExportError::DateParse);
    }
    if !(hour < 24 && minute < 60 && second < 60) {
        return Err(ExportError::DateParse);
    }
    proof {
        lemma_days_before_year_bounds(year as int);
        lemma_days_before_year_bounds(1970);
        lemma_days_before_month_bounds(year as int, month as int);
    }
    let days: i64 = days_before_year_x(year) as i64 + days_before_month_x(year, month) as i64 + (
    day as i64 - 1) - days_before_year_x(1970) as i64;
    Ok(days * 86400 + hour as i64 * 3600 + minute as i64 * 60 + second as i64)
}

// -------------------------------------------------------------------------
// Rendering a timestamp as `DD/MM/YY,HH:MM:SS`
// -------------------------------------------------------------------------
/// The year reached after walking whole years of `days`, starting at year `y`.
pub open spec fn year_of_days(y: int, days: int) -> int
    decreases days,
{
    if days < days_in_year(y) {
        y
    } else {
        year_of_days(y + 1, days - days_in_year(y))
    }
}

/// The days left over within the year `year_of_days(y, days)`.
pub open spec fn rem_in_year(y: int, days: int) -> int
    decreases days,
{
    if days < days_in_year(y) {
        days
    } else {
        rem_in_year(y + 1, days - days_in_year(y))
    }
}

/// The month of year `y` reached after walking whole months of `days`,
/// starting at month `m`.
pub open spec fn month_of_days(y: int, m: int, days: int) -> int
    decreases days,
{
    if days < days_in_month(y, m) {
        m
    } else {
        month_of_days(y, m + 1, days - days_in_month(y, m))
    }
}

/// The days left over within the month `month_of_days(y, m, days)`.
pub open spec fn rem_in_month(y: int, m: int, days: int) -> int
    decreases days,
{
    if days < days_in_month(y, m) {
        days
    } else {
        rem_in_month(y, m + 1, days - days_in_month(y, m))
    }
}

pub open spec fn ts_year(t: int) -> int {
    year_of_days(1970, t / 86400)
}

pub open spec fn ts_month(t: int) -> int {
    month_of_days(ts_year(t), 1, rem_in_year(1970, t / 86400))
}

pub open spec fn ts_day(t: int) -> int {
    rem_in_month(ts_year(t), 1, rem_in_year(1970, t / 86400)) + 1
}

pub open spec fn ts_hour(t: int) -> int {
    (t % 86400) / 3600
}

pub open spec fn ts_minute(t: int) -> int {
    ((t % 86400) % 3600) / 60
}

pub open spec fn ts_second(t: int) -> int {
    (t % 86400) % 60
}

/// The `DD/MM/YY,HH:MM:SS` fields of an output line for timestamp `t`.
pub open spec fn date_time_seq(t: int) -> Seq<char> {
    two_digit_seq(ts_day(t)) + seq!['/'] + two_digit_seq(ts_month(t)) + seq!['/'] + two_digit_seq(
        ts_year(t) % 100,
    ) + seq![','] + two_digit_seq(ts_hour(t)) + seq![':'] + two_digit_seq(ts_minute(t)) + seq![':']
        + two_digit_seq(ts_second(t))
}

/// Appends `DD/MM/YY,HH:MM:SS` for timestamp `t` to `out`.
pub fn push_date_time(out: &mut String, t: u64)
    ensures
        final(out)@ == old(out)@ + date_time_seq(t as int),
{
    let days: u64 = t / 86400;
    let secs: u64 = t % 86400;
    proof {
        lemma_div_is_ordered(t as int, u64::MAX as int, 86400);
    }

    let mut y: u64 = 1970;
    let mut rem: u64 = days;
    loop
        invariant
            1970 <= y,
            y - 1970 <= days - rem,
            rem <= days <= u64::MAX as int / 86400,
            year_of_days(1970, days as int) == year_of_days(y as int, rem as int),
            rem_in_year(1970, days as int) == rem_in_year(y as int, rem as int),
        ensures
            year_of_days(1970, days as int) == y as int,
            rem_in_year(1970, days as int) == rem as int,
            rem < days_in_year(y as int),
        decreases rem,
    {
        let diy: u64 = if is_leap_year_x(y) {
            366
        } else {
            365
        };
        if rem < diy {
            break ;
        }
        rem = rem - diy;
        y = y + 1;
    }
    let year: u64 = y;
    let yrem: u64 = rem;

    let mut m: u64 = 1;
    let mut mrem: u64 = yrem;
    loop
        invariant
            1 <= m <= 12,
            mrem <= yrem,
            yrem < days_in_year(year as int),
            yrem - mrem == days_before_month(year as int, m as int),
            month_of_days(year as int, 1, yrem as int) == month_of_days(
                year as int,
                m as int,
                mrem as int,
            ),
            rem_in_month(year as int, 1, yrem as int) == rem_in_month(
                year as int,
                m as int,
                mrem as int,
            ),
        ensures
            month_of_days(year as int, 1, yrem as int) == m as int,
            rem_in_month(year as int, 1, yrem as int) == mrem as int,
            1 <= m <= 12,
            mrem < days_in_month(year as int, m as int),
        decreases mrem,
    {
        let dim = days_in_month_x(year, m);
        if mrem < dim {
            break ;
        }
        proof {
            if m == 12 {
                lemma_months_cover_year(year as int);
                assert(false);
            }
        }
        mrem = mrem - dim;
        m = m + 1;
    }
    let month: u64 = m;
    let day: u64 = mrem + 1;

    let ghost start = out@;
    push_two_digits(out, day);
    out.append("/");
    push_two_digits(out, month);
    out.append("/");
    push_two_digits(out, year % 100);
    out.append(",");
    push_two_digits(out, secs / 3600);
    out.append(":");
    push_two_digits(out, (secs % 3600) / 60);
    out.append(":");
    push_two_digits(out, secs % 60);
    proof {
        reveal_strlit("/");
        reveal_strlit(",");
        reveal_strlit(":");
        assert(out@ =~= start + date_time_seq(t as int));
    }
}

} // verus!
