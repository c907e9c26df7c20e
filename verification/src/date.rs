//! Calendar dates of times counted in seconds from the Unix epoch, in UTC,
//! as a file's timestamp is rendered into its new name.

use vstd::prelude::*;
use crate::rename::TimestampFormat;
use crate::text::{chars_of, decimal, push_char, push_str};

verus! {

/// Whether `year` is a leap year of the Gregorian calendar.
pub open spec fn leap(year: int) -> bool {
    (year % 4 == 0 && year % 100 != 0) || year % 400 == 0
}

/// The number of days in `year`.
pub open spec fn year_len(year: int) -> int {
    if leap(year) {
        366
    } else {
        365
    }
}

/// The number of days in `month` (1 to 12) of `year`.
pub open spec fn month_len(year: int, month: int) -> int {
    if month == 2 {
        if leap(year) {
            29
        } else {
            28
        }
    } else if month == 4 || month == 6 || month == 9 || month == 11 {
        30
    } else {
        31
    }
}

/// Days from 1970-01-01 to the first of January of `year`.
pub open spec fn days_to_year(year: int) -> int
    decreases year - 1970,
{
    if year <= 1970 {
        0
    } else {
        days_to_year(year - 1) + year_len(year - 1)
    }
}

/// Days from the first of January of `year` to the first of `month`.
pub open spec fn days_to_month(year: int, month: int) -> int
    decreases month,
{
    if month <= 1 {
        0
    } else {
        days_to_month(year, month - 1) + month_len(year, month - 1)
    }
}

/// `(year, month, day)` is the date `days` days after 1970-01-01.
pub open spec fn is_date_of(days: int, year: int, month: int, day: int) -> bool {
    &&& year >= 1970
    &&& 1 <= month <= 12
    &&& 1 <= day <= month_len(year, month)
    &&& days == days_to_year(year) + days_to_month(year, month) + day - 1
}

/// Whether `year` is a leap year.
pub fn is_leap_year(year: u64) -> (r: bool)
    ensures
        r == leap(year as int),
{
    (year % 4 == 0 && year % 100 != 0) || year % 400 == 0
}

/// The number of days in `month` of `year`.
fn days_in_month(year: u64, month: u64) -> (r: u64)
    ensures
        r == month_len(year as int, month as int),
{
    if month == 2 {
        if is_leap_year(year) {
            29
        } else {
            28
        }
    } else if month == 4 || month == 6 || month == 9 || month == 11 {
        30
    } else {
        31
    }
}

/// Every year has at least 365 days.
proof fn lemma_days_to_year_grows(year: int)
    requires
        year >= 1970,
    ensures
        days_to_year(year) >= 365 * (year - 1970),
    decreases year - 1970,
{
    if year > 1970 {
        lemma_days_to_year_grows(year - 1);
    }
}

/// The months of a year add up to the year.
proof fn lemma_months_fill_year(year: int)
    ensures
        days_to_month(year, 12) + month_len(year, 12) == year_len(year),
{
    reveal_with_fuel(days_to_month, 12);
}

/// Later years start later.
proof fn lemma_year_mono(a: int, b: int)
    requires
        a <= b,
    ensures
        days_to_year(a) <= days_to_year(b),
    decreases b - a,
{
    if a < b {
        lemma_year_mono(a, b - 1);
    }
}

/// Later months start later.
proof fn lemma_month_mono(year: int, a: int, b: int)
    requires
        a <= b,
    ensures
        days_to_month(year, a) <= days_to_month(year, b),
    decreases b - a,
{
    if a < b {
        lemma_month_mono(year, a, b - 1);
    }
}

/// A day of `month` falls within its year.
proof fn lemma_day_in_year(year: int, month: int, day: int)
    requires
        1 <= month <= 12,
        1 <= day <= month_len(year, month),
    ensures
        0 <= days_to_month(year, month) + day - 1 < year_len(year),
{
    lemma_month_mono(year, 1, month);
    lemma_month_mono(year, month + 1, 13);
    reveal_with_fuel(days_to_month, 13);
}

/// Each day since 1970-01-01 has one date: the calendar neither skips nor
/// repeats a day.
pub proof fn lemma_date_unique(days: int, y1: int, m1: int, d1: int, y2: int, m2: int, d2: int)
    requires
        is_date_of(days, y1, m1, d1),
        is_date_of(days, y2, m2, d2),
    ensures
        y1 == y2 && m1 == m2 && d1 == d2,
{
    lemma_day_in_year(y1, m1, d1);
    lemma_day_in_year(y2, m2, d2);
    if y1 < y2 {
        lemma_year_mono(y1 + 1, y2);
    } else if y2 < y1 {
        lemma_year_mono(y2 + 1, y1);
    }
    assert(y1 == y2);
    if m1 < m2 {
        lemma_month_mono(y1, m1 + 1, m2);
    } else if m2 < m1 {
        lemma_month_mono(y1, m2 + 1, m1);
    }
}

/// The date `days` days after 1970-01-01.
pub fn date_of_days(days: u64) -> (r: (u64, u64, u64))
    ensures
        is_date_of(days as int, r.0 as int, r.1 as int, r.2 as int),
{
    let mut year: u64 = 1970;
    let mut remaining: u64 = days;
    loop
        invariant
            year >= 1970,
            remaining <= days,
            days == days_to_year(year as int) + remaining,
        ensures
            year >= 1970,
            days == days_to_year(year as int) + remaining,
            remaining < year_len(year as int),
        decreases remaining,
    {
        proof {
            lemma_days_to_year_grows(year as int);
            assert(year < u64::MAX) by (nonlinear_arith)
                requires
                    365 * (year - 1970) <= days,
                    days <= u64::MAX,
            ;
        }
        let len: u64 = if is_leap_year(year) { 366 } else { 365 };
        if remaining < len {
            break;
        }
        remaining = remaining - len;
        year = year + 1;
    }
    proof {
        lemma_months_fill_year(year as int);
    }
    let mut month: u64 = 1;
    let mut day: u64 = remaining + 1;
    while month < 12 && day > days_in_month(year, month)
        invariant
            1 <= month <= 12,
            day >= 1,
            remaining < year_len(year as int),
            remaining == days_to_month(year as int, month as int) + day - 1,
            days_to_month(year as int, 12) + month_len(year as int, 12) == year_len(year as int),
        decreases 12 - month,
    {
        day = day - days_in_month(year, month);
        month = month + 1;
    }
    (year, month, day)
}

/// `n` in decimal, with leading zeros up to `width` digits.
pub open spec fn padded(n: nat, width: nat) -> Seq<char> {
    if decimal(n).len() >= width {
        decimal(n)
    } else {
        Seq::new((width - decimal(n).len()) as nat, |i: int| '0') + decimal(n)
    }
}

/// The timestamp text of a date: `YYYYMMDD` in the long form, `YYMMDD`
/// (the last two digits of the year) in the short one.
pub open spec fn stamp(format: TimestampFormat, year: nat, month: nat, day: nat) -> Seq<char> {
    match format {
        TimestampFormat::Short => padded(year % 100, 2) + padded(month, 2) + padded(day, 2),
        _ => padded(year, 4) + padded(month, 2) + padded(day, 2),
    }
}

/// `n` in decimal.
fn u64_text(n: u64) -> (r: String)
    ensures
        r@ == decimal(n as nat),
    decreases n,
{
    let d: u8 = (n % 10) as u8;
    let c = (48u8 + d) as char;
    if n < 10 {
        let mut s = String::new();
        push_char(&mut s, c);
        s
    } else {
        let mut s = u64_text(n / 10);
        push_char(&mut s, c);
        s
    }
}

/// `n` in decimal, with leading zeros up to `width` digits.
fn padded_text(n: u64, width: usize) -> (r: String)
    ensures
        r@ == padded(n as nat, width as nat),
{
    let digits = u64_text(n);
    let len = chars_of(digits.as_str()).len();
    let mut out = String::new();
    let mut k: usize = len;
    while k < width
        invariant
            len == decimal(n as nat).len(),
            len <= k <= width || (k == len && len > width),
            out@ == Seq::new((k - len) as nat, |i: int| '0'),
        decreases width - k,
    {
        push_char(&mut out, '0');
        assert(out@ =~= Seq::new((k + 1 - len) as nat, |i: int| '0'));
        k = k + 1;
    }
    push_str(&mut out, digits.as_str());
    if len >= width {
        assert(out@ =~= decimal(n as nat));
    }
    out
}

/// The timestamp text of a file whose time is `secs` seconds after the
/// Unix epoch: its date in UTC in the form `format` asks for, and `None`
/// where no timestamp is asked for.
pub fn utc_date_text(secs: u64, format: TimestampFormat) -> (r: Option<String>)
    ensures
        format is Omit ==> r is None,
        !(format is Omit) ==> (r matches Some(t) && exists|y: nat, m: nat, d: nat|
            is_date_of((secs / 86400) as int, y as int, m as int, d as int) && t@ == stamp(
                format,
                y,
                m,
                d,
            )),
{
    match format {
        TimestampFormat::Omit => None,
        _ => {
            let (year, month, day) = date_of_days(secs / 86400);
            let y = match format {
                TimestampFormat::Short => padded_text(year % 100, 2),
                _ => padded_text(year, 4),
            };
            let mut t = y;
            push_str(&mut t, padded_text(month, 2).as_str());
            push_str(&mut t, padded_text(day, 2).as_str());
            assert(is_date_of((secs / 86400) as int, year as int, month as int, day as int));
            assert(t@ == stamp(format, year as nat, month as nat, day as nat));
            Some(t)
        },
    }
}

} // verus!
