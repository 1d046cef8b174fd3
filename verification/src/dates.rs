//! Calendar dates in the strict `YYYY-MM-DD` wire format used by every date
//! field of the records: parsing, validity and rendering.

use vstd::prelude::*;
use crate::text::{
    all_digits, chars_to_string, digit_val, digits_val, is_digit_char, string_to_chars,
};

verus! {

#[derive(Clone, Copy, PartialEq, Eq, Structural, Debug)]
pub struct Date {
    pub year: u32,
    pub month: u32,
    pub day: u32,
}

pub open spec fn is_leap_year(y: int) -> bool {
    (y % 4 == 0 && y % 100 != 0) || y % 400 == 0
}

pub open spec fn days_in_month(y: int, m: int) -> int {
    if m == 2 {
        if is_leap_year(y) {
            29
        } else {
            28
        }
    } else if m == 4 || m == 6 || m == 9 || m == 11 {
        30
    } else {
        31
    }
}

/// A year-month-day triple that names a real day of the proleptic Gregorian
/// calendar, within the four-digit years the wire format can carry.
pub open spec fn valid_ymd(y: int, m: int, d: int) -> bool {
    0 <= y <= 9999 && 1 <= m <= 12 && 1 <= d <= days_in_month(y, m)
}

impl Date {
    pub open spec fn wf(self) -> bool {
        valid_ymd(self.year as int, self.month as int, self.day as int)
    }

    /// One integer per date, ordered as the calendar is.
    pub open spec fn num(self) -> int {
        self.year * 10000 + self.month * 100 + self.day
    }

    pub fn key(&self) -> (r: u32)
        requires
            self.wf(),
        ensures
            r == self.num(),
    {
        self.year * 10000 + self.month * 100 + self.day
    }
}

fn leap_year(y: u32) -> (r: bool)
    ensures
        r == is_leap_year(y as int),
{
    (y % 4 == 0 && y % 100 != 0) || y % 400 == 0
}

fn month_days(y: u32, m: u32) -> (r: u32)
    ensures
        r == days_in_month(y as int, m as int),
{
    if m == 2 {
        if leap_year(y) {
            29
        } else {
            28
        }
    } else if m == 4 || m == 6 || m == 9 || m == 11 {
        30
    } else {
        31
    }
}

/// The shape of a strict date string: `DDDD-DD-DD` with decimal digits.
pub open spec fn date_format_ok(s: Seq<char>) -> bool {
    s.len() == 10 && is_digit_char(s[0]) && is_digit_char(s[1]) && is_digit_char(s[2])
        && is_digit_char(s[3]) && s[4] == '-' && is_digit_char(s[5]) && is_digit_char(s[6])
        && s[7] == '-' && is_digit_char(s[8]) && is_digit_char(s[9])
}

pub open spec fn date_year(s: Seq<char>) -> int {
    digits_val(s.subrange(0, 4))
}

pub open spec fn date_month(s: Seq<char>) -> int {
    digits_val(s.subrange(5, 7))
}

pub open spec fn date_day(s: Seq<char>) -> int {
    digits_val(s.subrange(8, 10))
}

/// What parsing a date string yields: a date exactly when the string has the
/// strict shape and names a real calendar day.
pub open spec fn parse_date_spec(s: Seq<char>) -> Option<Date> {
    if date_format_ok(s) && valid_ymd(date_year(s), date_month(s), date_day(s)) {
        Some(
            Date {
                year: date_year(s) as u32,
                month: date_month(s) as u32,
                day: date_day(s) as u32,
            },
        )
    } else {
        None
    }
}

proof fn lemma_digits_val2(s: Seq<char>)
    requires
        s.len() == 2,
    ensures
        digits_val(s) == digit_val(s[0]) * 10 + digit_val(s[1]),
{
    reveal_with_fuel(digits_val, 3);
    assert(s.drop_last() =~= seq![s[0]]);
    assert(seq![s[0]].drop_last() =~= Seq::<char>::empty());
    assert(digits_val(Seq::<char>::empty()) == 0);
    assert(digits_val(seq![s[0]]) == digit_val(s[0]));
    assert(s.last() == s[1]);
}

proof fn lemma_digits_val4(s: Seq<char>)
    requires
        s.len() == 4,
    ensures
        digits_val(s) == ((digit_val(s[0]) * 10 + digit_val(s[1])) * 10 + digit_val(s[2])) * 10
            + digit_val(s[3]),
{
    reveal_with_fuel(digits_val, 2);
    assert(s.drop_last() =~= s.subrange(0, 3));
    assert(s.subrange(0, 3).drop_last() =~= s.subrange(0, 2));
    lemma_digits_val2(s.subrange(0, 2));
    assert(s.subrange(0, 2)[0] == s[0] && s.subrange(0, 2)[1] == s[1]);
    assert(s.subrange(0, 3).last() == s[2]);
    assert(s.last() == s[3]);
    assert(digits_val(s.subrange(0, 3)) == digits_val(s.subrange(0, 2)) * 10 + digit_val(s[2]));
}

fn digit_of(c: char) -> (r: Option<u32>)
    ensures
        r matches Some(v) ==> is_digit_char(c) && v == digit_val(c) && v <= 9,
        r is None ==> !is_digit_char(c),
{
    let u: u32 = c as u32;
    if 0x30 <= u && u <= 0x39 {
        Some(u - 0x30)
    } else {
        None
    }
}

/// Parse a date string in the strict `YYYY-MM-DD` format; any other shape,
/// and any triple that is not a real calendar day, is rejected.
pub fn parse_date(s: &str) -> (r: Option<Date>)
    ensures
        r == parse_date_spec(s@),
{
    let v = string_to_chars(s);
    if v.len() != 10 {
        return None;
    }
    if !(v[4] == '-' && v[7] == '-') {
        return None;
    }
    let d0 = digit_of(v[0]);
    let d1 = digit_of(v[1]);
    let d2 = digit_of(v[2]);
    let d3 = digit_of(v[3]);
    let m0 = digit_of(v[5]);
    let m1 = digit_of(v[6]);
    let a0 = digit_of(v[8]);
    let a1 = digit_of(v[9]);
    match (d0, d1, d2, d3, m0, m1, a0, a1) {
        (
            Some(d0),
            Some(d1),
            Some(d2),
            Some(d3),
            Some(m0),
            Some(m1),
            Some(a0),
            Some(a1),
        ) => {
            let y: u32 = ((d0 * 10 + d1) * 10 + d2) * 10 + d3;
            let m: u32 = m0 * 10 + m1;
            let d: u32 = a0 * 10 + a1;
            proof {
                lemma_digits_val4(s@.subrange(0, 4));
                lemma_digits_val2(s@.subrange(5, 7));
                lemma_digits_val2(s@.subrange(8, 10));
            }
            if 1 <= m && m <= 12 && 1 <= d && d <= month_days(y, m) {
                Some(Date { year: y, month: m, day: d })
            } else {
                None
            }
        },
        _ => None,
    }
}

pub open spec fn digit_char_of(v: int) -> char {
    ((0x30 + v) as u8) as char
}

/// The ten characters that render a date: zero-padded `YYYY-MM-DD`.
pub open spec fn date_chars(d: Date) -> Seq<char> {
    seq![
        digit_char_of(d.year as int / 1000),
        digit_char_of((d.year as int / 100) % 10),
        digit_char_of((d.year as int / 10) % 10),
        digit_char_of(d.year as int % 10),
        '-',
        digit_char_of(d.month as int / 10),
        digit_char_of(d.month as int % 10),
        '-',
        digit_char_of(d.day as int / 10),
        digit_char_of(d.day as int % 10),
    ]
}

fn digit_ch(v: u32) -> (c: char)
    requires
        v <= 9,
    ensures
        c == digit_char_of(v as int),
{
    (0x30 + v as u8) as char
}

/// Render a date as the ISO calendar string `YYYY-MM-DD`.
pub fn format_date(d: &Date) -> (r: String)
    requires
        d.wf(),
    ensures
        r@ == date_chars(*d),
{
    let mut v: Vec<char> = Vec::new();
    v.push(digit_ch(d.year / 1000));
    v.push(digit_ch(d.year / 100 % 10));
    v.push(digit_ch(d.year / 10 % 10));
    v.push(digit_ch(d.year % 10));
    v.push('-');
    v.push(digit_ch(d.month / 10));
    v.push(digit_ch(d.month % 10));
    v.push('-');
    v.push(digit_ch(d.day / 10));
    v.push(digit_ch(d.day % 10));
    proof {
        assert(v@ =~= date_chars(*d));
    }
    chars_to_string(&v)
}

} // verus!
