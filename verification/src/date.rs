//! Calendar dates as plain values: a `Date` is a year, month and day in the
//! proleptic Gregorian calendar, together with a verified parser for the
//! `YYYY-MM-DD` wire format and a total comparison.

use vstd::prelude::*;

verus! {

/// A calendar date with no time component. Due dates travel on the wire as
/// `YYYY-MM-DD` strings and live here as plain fields.
#[derive(Clone, Copy, Debug, PartialEq, Eq, Structural)]
pub struct Date {
    pub year: u32,
    pub month: u32,
    pub day: u32,
}

pub open spec fn is_leap_year(y: int) -> bool {
    y % 4 == 0 && (y % 100 != 0 || y % 400 == 0)
}

pub open spec fn days_in_month(y: int, m: int) -> int {
    if m == 2 {
        if is_leap_year(y) {
            29
        } else {
            28
        }
    } else if m == 4 || m == 6 || m == 9 || m == 11 {
        30
    } else {
        31
    }
}

/// A well-formed calendar date: the year has at most four digits (the wire
/// format allows no more) and the day exists in that month of that year.
pub open spec fn valid_ymd(y: int, m: int, d: int) -> bool {
    &&& 0 <= y <= 9999
    &&& 1 <= m <= 12
    &&& 1 <= d <= days_in_month(y, m)
}

impl Date {
    pub open spec fn wf(self) -> bool {
        valid_ymd(self.year as int, self.month as int, self.day as int)
    }

    /// `self` is on or before `other` in calendar order.
    pub fn le(&self, other: &Date) -> (r: bool)
        ensures
            r == date_le(*self, *other),
    {
        self.year < other.year || (self.year == other.year && (self.month < other.month || (
        self.month == other.month && self.day <= other.day)))
    }
}

/// Calendar order on dates: years, then months, then days.
pub open spec fn date_le(a: Date, b: Date) -> bool {
    ||| a.year < b.year
    ||| (a.year == b.year && a.month < b.month)
    ||| (a.year == b.year && a.month == b.month && a.day <= b.day)
}

/// The numeric value of a decimal digit character.
pub open spec fn digit_val(c: char) -> int {
    c as int - 48
}

pub open spec fn is_digit(c: char) -> bool {
    48 <= c as int <= 57
}

/// The ten characters of a due-date string have the shape `YYYY-MM-DD`:
/// digits everywhere but the two dashes.
pub open spec fn date_str_shape(s: Seq<char>) -> bool {
    &&& s.len() == 10
    &&& is_digit(s[0]) && is_digit(s[1]) && is_digit(s[2]) && is_digit(s[3])
    &&& s[4] == '-'
    &&& is_digit(s[5]) && is_digit(s[6])
    &&& s[7] == '-'
    &&& is_digit(s[8]) && is_digit(s[9])
}

pub open spec fn year_of(s: Seq<char>) -> int {
    digit_val(s[0]) * 1000 + digit_val(s[1]) * 100 + digit_val(s[2]) * 10 + digit_val(s[3])
}

pub open spec fn month_of(s: Seq<char>) -> int {
    digit_val(s[5]) * 10 + digit_val(s[6])
}

pub open spec fn day_of(s: Seq<char>) -> int {
    digit_val(s[8]) * 10 + digit_val(s[9])
}

/// What parsing a due-date string yields: a date exactly when the string has
/// the `YYYY-MM-DD` shape and names a real calendar date, and nothing
/// otherwise.
pub open spec fn parse_date_spec(s: Seq<char>) -> Option<Date> {
    if date_str_shape(s) && valid_ymd(year_of(s), month_of(s), day_of(s)) {
        Some(
            Date {
                year: year_of(s) as u32,
                month: month_of(s) as u32,
                day: day_of(s) as u32,
            },
        )
    } else {
        None
    }
}

/// Reads one decimal digit of `s`, or reports that the character there is
/// none.
fn read_digit(s: &str, i: usize) -> (r: Option<u32>)
    requires
        i < s@.len(),
    ensures
        match r {
            Some(v) => is_digit(s@[i as int]) && v == digit_val(s@[i as int]) && v <= 9,
            None => !is_digit(s@[i as int]),
        },
{
    let c = s.get_char(i);
    let v = c as u32;
    if 48 <= v && v <= 57 {
        Some(v - 48)
    } else {
        None
    }
}

fn days_in_month_exec(y: u32, m: u32) -> (r: u32)
    requires
        1 <= m <= 12,
    ensures
        r == days_in_month(y as int, m as int),
{
    if m == 2 {
        if y % 4 == 0 && (y % 100 != 0 || y % 400 == 0) {
            29
        } else {
            28
        }
    } else if m == 4 || m == 6 || m == 9 || m == 11 {
        30
    } else {
        31
    }
}

/// Parses a `YYYY-MM-DD` due-date string; returns the date exactly when the
/// string is well-shaped and names a real calendar date.
pub fn parse_date(s: &str) -> (r: Option<Date>)
    ensures
        r == parse_date_spec(s@),
{
    if s.unicode_len() != 10 {
        return None;
    }
    if s.get_char(4) != '-' || s.get_char(7) != '-' {
        return None;
    }
    let d0 = match read_digit(s, 0) {
        Some(v) => v,
        None => { return None; },
    };
    let d1 = match read_digit(s, 1) {
        Some(v) => v,
        None => { return None; },
    };
    let d2 = match read_digit(s, 2) {
        Some(v) => v,
        None => { return None; },
    };
    let d3 = match read_digit(s, 3) {
        Some(v) => v,
        None => { return None; },
    };
    let m0 = match read_digit(s, 5) {
        Some(v) => v,
        None => { return None; },
    };
    let m1 = match read_digit(s, 6) {
        Some(v) => v,
        None => { return None; },
    };
    let e0 = match read_digit(s, 8) {
        Some(v) => v,
        None => { return None; },
    };
    let e1 = match read_digit(s, 9) {
        Some(v) => v,
        None => { return None; },
    };
    let year = d0 * 1000 + d1 * 100 + d2 * 10 + d3;
    let month = m0 * 10 + m1;
    let day = e0 * 10 + e1;
    if month < 1 || month > 12 {
        return None;
    }
    if day < 1 || day > days_in_month_exec(year, month) {
        return None;
    }
    Some(Date { year, month, day })
}

} // verus!
