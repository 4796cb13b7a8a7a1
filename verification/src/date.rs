//! Calendar dates as plain values: a proleptic-Gregorian `(year, month, day)`
//! triple, the `YYYY-MM-DD` filename date format, and the conversion of a
//! date to its day number relative to the Unix epoch.
//!
//! Day numbers are what the file finder compares against the day-level
//! projection of a query interval: comparing two dates by day number is the
//! same as comparing them as calendar dates.
use vstd::prelude::*;
use vstd::arithmetic::div_mod::lemma_div_is_ordered_by_denominator;

verus! {

/// A year is a leap year exactly when it is divisible by 4 and not by 100,
/// or divisible by 400.
pub open spec fn spec_is_leap_year(y: int) -> bool {
    (y % 4 == 0 && y % 100 != 0) || y % 400 == 0
}

pub open spec fn spec_days_in_month(y: int, m: int) -> int {
    if m == 2 {
        if spec_is_leap_year(y) {
            29
        } else {
            28
        }
    } else if m == 4 || m == 6 || m == 9 || m == 11 {
        30
    } else {
        31
    }
}

/// The dates the filename format can denote: four-digit years.
pub open spec fn spec_valid_date(y: int, m: int, d: int) -> bool {
    &&& 0 <= y <= 9999
    &&& 1 <= m <= 12
    &&& 1 <= d <= spec_days_in_month(y, m)
}

/// Number of leap years among the years `0, 1, ..., y - 1`.
/// Year 0 of the proleptic Gregorian calendar is a leap year.
pub open spec fn spec_leap_years_before(y: int) -> int
    recommends
        0 <= y,
{
    if y == 0 {
        0
    } else {
        1 + (y - 1) / 4 - (y - 1) / 100 + (y - 1) / 400
    }
}

/// Days of year `y` that precede the first day of month `m`.
pub open spec fn spec_days_before_month(y: int, m: int) -> int
    recommends
        1 <= m <= 12,
    decreases m,
{
    if m <= 1 {
        0
    } else {
        spec_days_before_month(y, m - 1) + spec_days_in_month(y, m - 1)
    }
}

/// Days from 0000-01-01 to 1970-01-01 in the proleptic Gregorian calendar.
pub open spec fn spec_epoch_offset() -> int {
    719528
}

/// Day number of a calendar date: days since 1970-01-01, negative for
/// earlier dates.
pub open spec fn spec_day_number(y: int, m: int, d: int) -> int {
    365 * y + spec_leap_years_before(y) + spec_days_before_month(y, m) + (d - 1)
        - spec_epoch_offset()
}

#[derive(Clone, Copy, PartialEq, Eq, Structural, Debug)]
pub struct Date {
    pub year: u16,
    pub month: u8,
    pub day: u8,
}

impl Date {
    pub open spec fn wf(self) -> bool {
        spec_valid_date(self.year as int, self.month as int, self.day as int)
    }

    pub open spec fn spec_day_num(self) -> int {
        spec_day_number(self.year as int, self.month as int, self.day as int)
    }

    /// Days since 1970-01-01 (negative before the epoch).
    pub fn day_number(&self) -> (n: i64)
        requires
            self.wf(),
        ensures
            n as int == self.spec_day_num(),
    {
        let y = self.year as u64;
        let leaps: u64 = if y == 0 {
            0
        } else {
            let q4 = (y - 1) / 4;
            let q100 = (y - 1) / 100;
            let q400 = (y - 1) / 400;
            proof {
                lemma_div_is_ordered_by_denominator((y - 1) as int, 4, 100);
            }
            1 + q4 - q100 + q400
        };
        let before_month = days_before_month(self.year, self.month);
        let total: u64 = 365 * y + leaps + before_month as u64 + (self.day as u64 - 1);
        total as i64 - 719528
    }
}

pub fn is_leap_year(y: u16) -> (r: bool)
    ensures
        r == spec_is_leap_year(y as int),
{
    (y % 4 == 0 && y % 100 != 0) || y % 400 == 0
}

pub fn days_in_month(y: u16, m: u8) -> (r: u8)
    ensures
        r as int == spec_days_in_month(y as int, m as int),
{
    if m == 2 {
        if is_leap_year(y) {
            29
        } else {
            28
        }
    } else if m == 4 || m == 6 || m == 9 || m == 11 {
        30
    } else {
        31
    }
}

fn days_before_month(y: u16, m: u8) -> (r: u16)
    requires
        1 <= m <= 12,
    ensures
        r as int == spec_days_before_month(y as int, m as int),
{
    let mut acc: u16 = 0;
    let mut i: u8 = 1;
    while i < m
        invariant
            1 <= i <= m <= 12,
            acc as int == spec_days_before_month(y as int, i as int),
            acc as int <= 31 * (i as int - 1),
        decreases m - i,
    {
        acc = acc + days_in_month(y, i) as u16;
        i = i + 1;
    }
    acc
}

/// A digit character, `'0'` through `'9'`.
pub open spec fn spec_is_digit(c: char) -> bool {
    48 <= c as u32 <= 57
}

pub open spec fn spec_digit_val(c: char) -> int {
    c as u32 - 48
}

/// The exact shape of the filename date format: ten characters,
/// `DDDD-DD-DD` with `D` a digit.
pub open spec fn spec_date_format(s: Seq<char>) -> bool {
    &&& s.len() == 10
    &&& spec_is_digit(s[0])
    &&& spec_is_digit(s[1])
    &&& spec_is_digit(s[2])
    &&& spec_is_digit(s[3])
    &&& s[4] == '-'
    &&& spec_is_digit(s[5])
    &&& spec_is_digit(s[6])
    &&& s[7] == '-'
    &&& spec_is_digit(s[8])
    &&& spec_is_digit(s[9])
}

pub open spec fn spec_year_of(s: Seq<char>) -> int {
    1000 * spec_digit_val(s[0]) + 100 * spec_digit_val(s[1]) + 10 * spec_digit_val(s[2])
        + spec_digit_val(s[3])
}

pub open spec fn spec_month_of(s: Seq<char>) -> int {
    10 * spec_digit_val(s[5]) + spec_digit_val(s[6])
}

pub open spec fn spec_day_of(s: Seq<char>) -> int {
    10 * spec_digit_val(s[8]) + spec_digit_val(s[9])
}

/// The date denoted by a `YYYY-MM-DD` string, when the string has that shape
/// and denotes a real calendar date.
pub open spec fn spec_parse_date(s: Seq<char>) -> Option<Date> {
    if spec_date_format(s) && spec_valid_date(spec_year_of(s), spec_month_of(s), spec_day_of(s)) {
        Some(
            Date {
                year: spec_year_of(s) as u16,
                month: spec_month_of(s) as u8,
                day: spec_day_of(s) as u8,
            },
        )
    } else {
        None
    }
}

fn digit_at(s: &str, i: usize) -> (r: Option<u16>)
    requires
        i < s@.len(),
    ensures
        r is Some <==> spec_is_digit(s@[i as int]),
        r is Some ==> r->Some_0 as int == spec_digit_val(s@[i as int]),
{
    let c = s.get_char(i);
    let v = c as u32;
    if 48 <= v && v <= 57 {
        Some((v - 48) as u16)
    } else {
        None
    }
}

/// Parses a calendar date written exactly as `YYYY-MM-DD`. Returns `None`
/// for any other shape and for a string of that shape that does not denote
/// a real calendar date (such as a 13th month or a February 30th).
pub fn parse_date(s: &str) -> (r: Option<Date>)
    ensures
        r == spec_parse_date(s@),
{
    if s.unicode_len() != 10 {
        return None;
    }
    if s.get_char(4) != '-' || s.get_char(7) != '-' {
        return None;
    }
    let d0 = digit_at(s, 0);
    let d1 = digit_at(s, 1);
    let d2 = digit_at(s, 2);
    let d3 = digit_at(s, 3);
    let d5 = digit_at(s, 5);
    let d6 = digit_at(s, 6);
    let d8 = digit_at(s, 8);
    let d9 = digit_at(s, 9);
    match (d0, d1, d2, d3, d5, d6, d8, d9) {
        (
            Some(v0),
            Some(v1),
            Some(v2),
            Some(v3),
            Some(v5),
            Some(v6),
            Some(v8),
            Some(v9),
        ) => {
            let year: u16 = 1000 * v0 + 100 * v1 + 10 * v2 + v3;
            let month_w: u16 = 10 * v5 + v6;
            let day_w: u16 = 10 * v8 + v9;
            if month_w < 1 || month_w > 12 {
                return None;
            }
            let month: u8 = month_w as u8;
            if day_w < 1 || day_w > days_in_month(year, month) as u16 {
                return None;
            }
            Some(Date { year, month, day: day_w as u8 })
        },
        _ => None,
    }
}

} // verus!
