//! Calendar dates for the daily-cycle policy: validity, stepping one day
//! back, and the `YYYY-MM-DD` text form the state files record.

use vstd::prelude::*;
use crate::text::{all_ascii, ascii_chars_of};

verus! {

/// A calendar date in the proleptic Gregorian calendar, in the year
/// range the four-digit text form can carry.
#[derive(Clone, Copy, PartialEq, Eq, Structural, Debug)]
pub struct Date {
    pub year: u32,
    pub month: u32,
    pub day: u32,
}

pub open spec fn is_leap_year(y: int) -> bool {
    (y % 4 == 0 && y % 100 != 0) || y % 400 == 0
}

pub open spec fn days_in_month_spec(y: int, m: int) -> int {
    if m == 2 {
        if is_leap_year(y) {
            29
        } else {
            28
        }
    } else if m == 4 || m == 6 || m == 9 || m == 11 {
        30
    } else {
        31
    }
}

pub open spec fn valid_date(d: Date) -> bool {
    &&& 1 <= d.year <= 9999
    &&& 1 <= d.month <= 12
    &&& 1 <= d.day <= days_in_month_spec(d.year as int, d.month as int)
}

pub fn days_in_month(year: u32, month: u32) -> (r: u32)
    ensures
        r == days_in_month_spec(year as int, month as int),
{
    if month == 2 {
        if (year % 4 == 0 && year % 100 != 0) || year % 400 == 0 {
            29
        } else {
            28
        }
    } else if month == 4 || month == 6 || month == 9 || month == 11 {
        30
    } else {
        31
    }
}

/// The calendar day before `d`.
pub open spec fn prev_day_spec(d: Date) -> Date {
    if d.day > 1 {
        Date { year: d.year, month: d.month, day: (d.day - 1) as u32 }
    } else if d.month > 1 {
        Date {
            year: d.year,
            month: (d.month - 1) as u32,
            day: days_in_month_spec(d.year as int, d.month - 1) as u32,
        }
    } else {
        Date { year: (d.year - 1) as u32, month: 12, day: 31 }
    }
}

/// Steps one day back. The first representable date is ruled out so the
/// result stays in range.
pub fn prev_day(d: Date) -> (r: Date)
    requires
        valid_date(d),
        !(d.year == 1 && d.month == 1 && d.day == 1),
    ensures
        r == prev_day_spec(d),
        valid_date(r),
{
    if d.day > 1 {
        Date { year: d.year, month: d.month, day: d.day - 1 }
    } else if d.month > 1 {
        Date { year: d.year, month: d.month - 1, day: days_in_month(d.year, d.month - 1) }
    } else {
        Date { year: d.year - 1, month: 12, day: 31 }
    }
}

pub open spec fn digit_byte(n: int) -> u8 {
    (0x30 + n) as u8
}

/// The ten bytes of the `YYYY-MM-DD` form of `d`.
pub open spec fn day_text_spec(d: Date) -> Seq<u8> {
    seq![
        digit_byte(d.year as int / 1000),
        digit_byte(d.year as int / 100 % 10),
        digit_byte(d.year as int / 10 % 10),
        digit_byte(d.year as int % 10),
        0x2d,
        digit_byte(d.month as int / 10),
        digit_byte(d.month as int % 10),
        0x2d,
        digit_byte(d.day as int / 10),
        digit_byte(d.day as int % 10),
    ]
}

/// The same text viewed as characters.
pub open spec fn day_chars_spec(d: Date) -> Seq<char> {
    ascii_chars_of(day_text_spec(d))
}

pub proof fn lemma_day_text_ascii(d: Date)
    requires
        valid_date(d),
    ensures
        all_ascii(day_text_spec(d)),
        day_text_spec(d).len() == 10,
{
}

/// Writes the `YYYY-MM-DD` bytes of `d`.
pub fn day_text(d: Date) -> (v: Vec<u8>)
    requires
        valid_date(d),
    ensures
        v@ == day_text_spec(d),
{
    let mut v: Vec<u8> = Vec::new();
    v.push(0x30 + (d.year / 1000) as u8);
    v.push(0x30 + (d.year / 100 % 10) as u8);
    v.push(0x30 + (d.year / 10 % 10) as u8);
    v.push(0x30 + (d.year % 10) as u8);
    v.push(0x2d);
    v.push(0x30 + (d.month / 10) as u8);
    v.push(0x30 + (d.month % 10) as u8);
    v.push(0x2d);
    v.push(0x30 + (d.day / 10) as u8);
    v.push(0x30 + (d.day % 10) as u8);
    assert(v@ =~= day_text_spec(d));
    v
}

pub open spec fn is_digit_char(c: char) -> bool {
    0x30 <= c as u32 <= 0x39
}

pub open spec fn digit_val(c: char) -> int {
    c as u32 - 0x30
}

/// The shape test the state files apply to a stored day value: ten
/// characters, dashes at the two separator positions, digits elsewhere.
pub open spec fn is_valid_day_text_spec(s: Seq<char>) -> bool {
    &&& s.len() == 10
    &&& s[4] == '-'
    &&& s[7] == '-'
    &&& forall|i: int| 0 <= i < 10 && i != 4 && i != 7 ==> is_digit_char(#[trigger] s[i])
}

pub fn is_valid_day_text(text: &str) -> (r: bool)
    ensures
        r == is_valid_day_text_spec(text@),
{
    let n = text.unicode_len();
    if n != 10 {
        return false;
    }
    let mut i: usize = 0;
    loop
        invariant
            i <= 10,
            text@.len() == 10,
            forall|j: int|
                0 <= j < i ==> if j == 4 || j == 7 {
                    text@[j] == '-'
                } else {
                    is_digit_char(#[trigger] text@[j])
                },
        decreases 10 - i,
    {
        if i >= 10 {
            return true;
        }
        let c = text.get_char(i);
        if i == 4 || i == 7 {
            if !(c == '-') {
                return false;
            }
        } else {
            let u = c as u32;
            if !(0x30 <= u && u <= 0x39) {
                return false;
            }
            proof {
                vstd::utf8::char_u32_cast(c, u);
            }
        }
        i = i + 1;
    }
}

/// The date a shape-valid day text denotes, when its fields are a real
/// calendar date.
pub open spec fn parse_day_spec(s: Seq<char>) -> Option<Date> {
    if is_valid_day_text_spec(s) {
        let y = digit_val(s[0]) * 1000 + digit_val(s[1]) * 100 + digit_val(s[2]) * 10 + digit_val(
            s[3],
        );
        let m = digit_val(s[5]) * 10 + digit_val(s[6]);
        let dd = digit_val(s[8]) * 10 + digit_val(s[9]);
        let d = Date { year: y as u32, month: m as u32, day: dd as u32 };
        if valid_date(d) {
            Some(d)
        } else {
            None
        }
    } else {
        None
    }
}

/// Reads a `YYYY-MM-DD` text back into a date; malformed or impossible
/// values give `None`.
pub fn parse_day(text: &str) -> (r: Option<Date>)
    ensures
        r == parse_day_spec(text@),
{
    if !is_valid_day_text(text) {
        return None;
    }
    let d0 = digit_of(text, 0);
    let d1 = digit_of(text, 1);
    let d2 = digit_of(text, 2);
    let d3 = digit_of(text, 3);
    let d5 = digit_of(text, 5);
    let d6 = digit_of(text, 6);
    let d8 = digit_of(text, 8);
    let d9 = digit_of(text, 9);
    let y = d0 * 1000 + d1 * 100 + d2 * 10 + d3;
    let m = d5 * 10 + d6;
    let dd = d8 * 10 + d9;
    let d = Date { year: y, month: m, day: dd };
    if 1 <= d.year && 1 <= d.month && d.month <= 12 && 1 <= d.day && d.day <= days_in_month(
        d.year,
        d.month,
    ) {
        Some(d)
    } else {
        None
    }
}

/// Reads one digit character of a shape-valid day text.
fn digit_of(text: &str, i: usize) -> (r: u32)
    requires
        is_valid_day_text_spec(text@),
        i < 10,
        i != 4,
        i != 7,
    ensures
        r == digit_val(text@[i as int]),
        r <= 9,
{
    let c = text.get_char(i);
    proof {
        vstd::utf8::char_u32_cast(c, c as u32);
    }
    (c as u32) - 0x30
}

/// A date's text form reads back as the same date.
pub proof fn lemma_day_text_roundtrip(d: Date)
    requires
        valid_date(d),
    ensures
        parse_day_spec(day_chars_spec(d)) == Some(d),
{
    let s = day_chars_spec(d);
    lemma_day_text_ascii(d);
    assert forall|i: int| 0 <= i < 10 implies #[trigger] s[i] as u32 == day_text_spec(d)[i] by {
        assert(s[i] == (day_text_spec(d)[i] as char));
    }
    assert(s[4] == '-' && s[7] == '-') by {
        assert(s[4] as u32 == 0x2d && s[7] as u32 == 0x2d);
        vstd::utf8::char_u32_cast('-', 0x2d);
    }
    assert(is_valid_day_text_spec(s));
    let y = d.year as int;
    let m = d.month as int;
    let dd = d.day as int;
    assert(digit_val(s[0]) == y / 1000 && digit_val(s[1]) == y / 100 % 10 && digit_val(s[2]) == y
        / 10 % 10 && digit_val(s[3]) == y % 10);
    lemma_four_digit_rebuild(y);
    assert(digit_val(s[5]) * 10 + digit_val(s[6]) == m) by {
        vstd::arithmetic::div_mod::lemma_fundamental_div_mod(m, 10);
    }
    assert(digit_val(s[8]) * 10 + digit_val(s[9]) == dd) by {
        vstd::arithmetic::div_mod::lemma_fundamental_div_mod(dd, 10);
    }
}

/// A number below ten thousand is rebuilt from its four decimal digits.
proof fn lemma_four_digit_rebuild(y: int)
    requires
        0 <= y < 10000,
    ensures
        y / 1000 * 1000 + y / 100 % 10 * 100 + y / 10 % 10 * 10 + y % 10 == y,
{
    vstd::arithmetic::div_mod::lemma_fundamental_div_mod(y, 1000);
    vstd::arithmetic::div_mod::lemma_mod_breakdown(y, 100, 10);
    vstd::arithmetic::div_mod::lemma_mod_breakdown(y, 10, 10);
    assert(y % 1000 == 100 * ((y / 100) % 10) + y % 100);
    assert(y % 100 == 10 * ((y / 10) % 10) + y % 10);
    assert(y == 1000 * (y / 1000) + y % 1000);
}

} // verus!
