//! Local deletion timestamps at second precision.
//!
//! A `DateTime` is a plain calendar value.  It is rendered to and parsed from
//! the fixed `YYYY-MM-DDTHH:MM:SS` shape that a metadata record stores (local
//! time, no offset, no sub-second precision); parsing accepts exactly the
//! strings that rendering a well-formed value produces.
use vstd::prelude::*;
use vstd::arithmetic::div_mod::{lemma_div_denominator, lemma_fundamental_div_mod};
use vstd::string::*;

use chrono::{Datelike, Timelike};

use crate::strutil::push_char;

verus! {

/// One local calendar time at second precision.
#[derive(Clone, Copy, PartialEq, Eq, Structural, Debug, PartialOrd, Ord)]
pub struct DateTime {
    pub year: u16,
    pub month: u8,
    pub day: u8,
    pub hour: u8,
    pub minute: u8,
    pub second: u8,
}

pub open spec fn is_leap_year(y: int) -> bool {
    y % 4 == 0 && (y % 100 != 0 || y % 400 == 0)
}

pub open spec fn days_in_month_spec(y: int, m: int) -> int {
    if m == 2 {
        if is_leap_year(y) {
            29
        } else {
            28
        }
    } else if m == 4 || m == 6 || m == 9 || m == 11 {
        30
    } else {
        31
    }
}

impl DateTime {
    /// A valid calendar date with in-range clock fields, within the years
    /// that the four-digit record shape can carry.
    pub open spec fn wf(self) -> bool {
        &&& self.year <= 9999
        &&& 1 <= self.month <= 12
        &&& 1 <= self.day <= days_in_month_spec(self.year as int, self.month as int)
        &&& self.hour <= 23
        &&& self.minute <= 59
        &&& self.second <= 59
    }
}

/// The character of one decimal digit.
pub open spec fn digit_char(d: int) -> char {
    if d == 0 {
        '0'
    } else if d == 1 {
        '1'
    } else if d == 2 {
        '2'
    } else if d == 3 {
        '3'
    } else if d == 4 {
        '4'
    } else if d == 5 {
        '5'
    } else if d == 6 {
        '6'
    } else if d == 7 {
        '7'
    } else if d == 8 {
        '8'
    } else {
        '9'
    }
}

pub open spec fn is_digit(c: char) -> bool {
    c == '0' || c == '1' || c == '2' || c == '3' || c == '4' || c == '5' || c == '6' || c == '7'
        || c == '8' || c == '9'
}

/// The value of one decimal digit character.
pub open spec fn digit_val(c: char) -> int {
    if c == '0' {
        0
    } else if c == '1' {
        1
    } else if c == '2' {
        2
    } else if c == '3' {
        3
    } else if c == '4' {
        4
    } else if c == '5' {
        5
    } else if c == '6' {
        6
    } else if c == '7' {
        7
    } else if c == '8' {
        8
    } else {
        9
    }
}

/// The 19 characters `YYYY-MM-DDTHH:MM:SS` of a timestamp.
pub open spec fn format_spec(dt: DateTime) -> Seq<char> {
    let y = dt.year as int;
    let mo = dt.month as int;
    let d = dt.day as int;
    let h = dt.hour as int;
    let mi = dt.minute as int;
    let s = dt.second as int;
    seq![
        digit_char(y / 1000),
        digit_char((y / 100) % 10),
        digit_char((y / 10) % 10),
        digit_char(y % 10),
        '-',
        digit_char(mo / 10),
        digit_char(mo % 10),
        '-',
        digit_char(d / 10),
        digit_char(d % 10),
        'T',
        digit_char(h / 10),
        digit_char(h % 10),
        ':',
        digit_char(mi / 10),
        digit_char(mi % 10),
        ':',
        digit_char(s / 10),
        digit_char(s % 10),
    ]
}

/// The timestamp that a 19-character record field denotes, when it has
/// exactly the `YYYY-MM-DDTHH:MM:SS` shape and is a valid calendar time.
pub open spec fn parse_spec(s: Seq<char>) -> Option<DateTime> {
    if s.len() == 19 && s[4] == '-' && s[7] == '-' && s[10] == 'T' && s[13] == ':' && s[16] == ':'
        && is_digit(s[0]) && is_digit(s[1]) && is_digit(s[2]) && is_digit(s[3]) && is_digit(s[5])
        && is_digit(s[6]) && is_digit(s[8]) && is_digit(s[9]) && is_digit(s[11]) && is_digit(s[12])
        && is_digit(s[14]) && is_digit(s[15]) && is_digit(s[17]) && is_digit(s[18]) {
        let dt = DateTime {
            year: (digit_val(s[0]) * 1000 + digit_val(s[1]) * 100 + digit_val(s[2]) * 10
                + digit_val(s[3])) as u16,
            month: (digit_val(s[5]) * 10 + digit_val(s[6])) as u8,
            day: (digit_val(s[8]) * 10 + digit_val(s[9])) as u8,
            hour: (digit_val(s[11]) * 10 + digit_val(s[12])) as u8,
            minute: (digit_val(s[14]) * 10 + digit_val(s[15])) as u8,
            second: (digit_val(s[17]) * 10 + digit_val(s[18])) as u8,
        };
        if dt.wf() {
            Some(dt)
        } else {
            None
        }
    } else {
        None
    }
}

/// The number of days of one month.
pub fn days_in_month(year: u16, month: u8) -> (r: u8)
    requires
        1 <= month <= 12,
    ensures
        r as int == days_in_month_spec(year as int, month as int),
{
    if month == 2 {
        if year % 4 == 0 && (year % 100 != 0 || year % 400 == 0) {
            29
        } else {
            28
        }
    } else if month == 4 || month == 6 || month == 9 || month == 11 {
        30
    } else {
        31
    }
}

/// The character of one decimal digit.
pub fn digit_char_ex(d: u16) -> (c: char)
    requires
        d <= 9,
    ensures
        c == digit_char(d as int),
{
    if d == 0 {
        '0'
    } else if d == 1 {
        '1'
    } else if d == 2 {
        '2'
    } else if d == 3 {
        '3'
    } else if d == 4 {
        '4'
    } else if d == 5 {
        '5'
    } else if d == 6 {
        '6'
    } else if d == 7 {
        '7'
    } else if d == 8 {
        '8'
    } else {
        '9'
    }
}

/// The value of one decimal digit character, or nothing for any other
/// character.
fn digit_val_ex(c: char) -> (r: Option<u8>)
    ensures
        r is Some <==> is_digit(c),
        r is Some ==> r->0 as int == digit_val(c),
{
    if c == '0' {
        Some(0)
    } else if c == '1' {
        Some(1)
    } else if c == '2' {
        Some(2)
    } else if c == '3' {
        Some(3)
    } else if c == '4' {
        Some(4)
    } else if c == '5' {
        Some(5)
    } else if c == '6' {
        Some(6)
    } else if c == '7' {
        Some(7)
    } else if c == '8' {
        Some(8)
    } else if c == '9' {
        Some(9)
    } else {
        None
    }
}

/// Renders `dt` as `YYYY-MM-DDTHH:MM:SS`.
pub fn format_datetime(dt: &DateTime) -> (r: String)
    requires
        dt.wf(),
    ensures
        r@ == format_spec(*dt),
        r@.len() == 19,
{
    let mut out = String::new();
    push_char(&mut out, digit_char_ex(dt.year / 1000));
    push_char(&mut out, digit_char_ex((dt.year / 100) % 10));
    push_char(&mut out, digit_char_ex((dt.year / 10) % 10));
    push_char(&mut out, digit_char_ex(dt.year % 10));
    push_char(&mut out, '-');
    push_char(&mut out, digit_char_ex((dt.month / 10) as u16));
    push_char(&mut out, digit_char_ex((dt.month % 10) as u16));
    push_char(&mut out, '-');
    push_char(&mut out, digit_char_ex((dt.day / 10) as u16));
    push_char(&mut out, digit_char_ex((dt.day % 10) as u16));
    push_char(&mut out, 'T');
    push_char(&mut out, digit_char_ex((dt.hour / 10) as u16));
    push_char(&mut out, digit_char_ex((dt.hour % 10) as u16));
    push_char(&mut out, ':');
    push_char(&mut out, digit_char_ex((dt.minute / 10) as u16));
    push_char(&mut out, digit_char_ex((dt.minute % 10) as u16));
    push_char(&mut out, ':');
    push_char(&mut out, digit_char_ex((dt.second / 10) as u16));
    push_char(&mut out, digit_char_ex((dt.second % 10) as u16));
    proof {
        assert(out@ =~= format_spec(*dt));
    }
    out
}

/// Parses `YYYY-MM-DDTHH:MM:SS`, accepting exactly the well-formed
/// timestamps in that shape.
pub fn parse_datetime(s: &str) -> (r: Option<DateTime>)
    ensures
        r == parse_spec(s@),
{
    let n = s.unicode_len();
    if n != 19 {
        return None;
    }
    if s.get_char(4) != '-' || s.get_char(7) != '-' || s.get_char(10) != 'T' || s.get_char(13)
        != ':' || s.get_char(16) != ':' {
        return None;
    }
    let d0 = match digit_val_ex(s.get_char(0)) {
        Some(d) => d,
        None => { return None },
    };
    let d1 = match digit_val_ex(s.get_char(1)) {
        Some(d) => d,
        None => { return None },
    };
    let d2 = match digit_val_ex(s.get_char(2)) {
        Some(d) => d,
        None => { return None },
    };
    let d3 = match digit_val_ex(s.get_char(3)) {
        Some(d) => d,
        None => { return None },
    };
    let mo0 = match digit_val_ex(s.get_char(5)) {
        Some(d) => d,
        None => { return None },
    };
    let mo1 = match digit_val_ex(s.get_char(6)) {
        Some(d) => d,
        None => { return None },
    };
    let day0 = match digit_val_ex(s.get_char(8)) {
        Some(d) => d,
        None => { return None },
    };
    let day1 = match digit_val_ex(s.get_char(9)) {
        Some(d) => d,
        None => { return None },
    };
    let h0 = match digit_val_ex(s.get_char(11)) {
        Some(d) => d,
        None => { return None },
    };
    let h1 = match digit_val_ex(s.get_char(12)) {
        Some(d) => d,
        None => { return None },
    };
    let mi0 = match digit_val_ex(s.get_char(14)) {
        Some(d) => d,
        None => { return None },
    };
    let mi1 = match digit_val_ex(s.get_char(15)) {
        Some(d) => d,
        None => { return None },
    };
    let s0 = match digit_val_ex(s.get_char(17)) {
        Some(d) => d,
        None => { return None },
    };
    let s1 = match digit_val_ex(s.get_char(18)) {
        Some(d) => d,
        None => { return None },
    };
    let dt = DateTime {
        year: d0 as u16 * 1000 + d1 as u16 * 100 + d2 as u16 * 10 + d3 as u16,
        month: mo0 * 10 + mo1,
        day: day0 * 10 + day1,
        hour: h0 * 10 + h1,
        minute: mi0 * 10 + mi1,
        second: s0 * 10 + s1,
    };
    if dt.month < 1 || dt.month > 12 {
        return None;
    }
    if dt.day < 1 || dt.day > days_in_month(dt.year, dt.month) {
        return None;
    }
    if dt.hour > 23 || dt.minute > 59 || dt.second > 59 {
        return None;
    }
    assert(dt.year <= 9999);
    Some(dt)
}

/// The four digits of a number up to 9999 reconstruct the number.
proof fn lemma_four_digits(y: int)
    requires
        0 <= y <= 9999,
    ensures
        (y / 1000) * 1000 + ((y / 100) % 10) * 100 + ((y / 10) % 10) * 10 + y % 10 == y,
{
    lemma_fundamental_div_mod(y, 10);
    lemma_fundamental_div_mod(y / 10, 10);
    lemma_fundamental_div_mod(y / 100, 10);
    lemma_div_denominator(y, 10, 10);
    lemma_div_denominator(y, 100, 10);
}

/// The two digits of a number up to 99 reconstruct the number.
proof fn lemma_two_digits(v: int)
    requires
        0 <= v <= 99,
    ensures
        (v / 10) * 10 + v % 10 == v,
{
    lemma_fundamental_div_mod(v, 10);
}

/// A digit character is a digit and carries its value.
proof fn lemma_digit(d: int)
    requires
        0 <= d <= 9,
    ensures
        is_digit(digit_char(d)),
        digit_val(digit_char(d)) == d,
{
}

/// Rendering a well-formed timestamp and parsing the result returns the
/// same value.
#[verifier::rlimit(50)]
pub proof fn lemma_format_parse_round_trip(dt: DateTime)
    requires
        dt.wf(),
    ensures
        parse_spec(format_spec(dt)) == Some(dt),
{
    let s = format_spec(dt);
    let y = dt.year as int;
    let mo = dt.month as int;
    let d = dt.day as int;
    let h = dt.hour as int;
    let mi = dt.minute as int;
    let sec = dt.second as int;
    lemma_digit(y / 1000);
    lemma_digit((y / 100) % 10);
    lemma_digit((y / 10) % 10);
    lemma_digit(y % 10);
    lemma_digit(mo / 10);
    lemma_digit(mo % 10);
    lemma_digit(d / 10);
    lemma_digit(d % 10);
    lemma_digit(h / 10);
    lemma_digit(h % 10);
    lemma_digit(mi / 10);
    lemma_digit(mi % 10);
    lemma_digit(sec / 10);
    lemma_digit(sec % 10);
    lemma_four_digits(y);
    lemma_two_digits(mo);
    lemma_two_digits(d);
    lemma_two_digits(h);
    lemma_two_digits(mi);
    lemma_two_digits(sec);
    assert(digit_val(s[0]) * 1000 + digit_val(s[1]) * 100 + digit_val(s[2]) * 10 + digit_val(s[3])
        == y);
    assert(digit_val(s[5]) * 10 + digit_val(s[6]) == mo);
    assert(digit_val(s[8]) * 10 + digit_val(s[9]) == d);
    assert(digit_val(s[11]) * 10 + digit_val(s[12]) == h);
    assert(digit_val(s[14]) * 10 + digit_val(s[15]) == mi);
    assert(digit_val(s[17]) * 10 + digit_val(s[18]) == sec);
    assert(parse_spec(s) == Some(dt));
}

/// A successfully parsed timestamp is well-formed.
pub proof fn lemma_parse_wf(s: Seq<char>)
    ensures
        parse_spec(s) is Some ==> parse_spec(s)->0.wf(),
{
}

/// Relies on `chrono::Local::now` with the `Datelike` and `Timelike`
/// accessors: a chrono datetime always holds a valid calendar date
/// (month 1..=12, day valid for that month and year) and in-range clock
/// fields (hour < 24, minute < 60, second < 60).  The year is whatever the
/// system clock says.  On a system clock set before the Unix epoch the call
/// does not return (chrono aborts there); no argument can exclude that
/// environment condition.
#[verifier::external_body]
fn local_now_fields() -> (r: (i32, u32, u32, u32, u32, u32))
    ensures
        1 <= r.1 <= 12,
        1 <= r.2 as int <= days_in_month_spec(r.0 as int, r.1 as int),
        r.3 < 24,
        r.4 < 60,
        r.5 < 60,
{
    let now = chrono::Local::now();
    (now.year(), now.month(), now.day(), now.hour(), now.minute(), now.second())
}

/// The current local time, when the system clock lies within the years the
/// record shape can carry.
pub fn local_now() -> (r: Option<DateTime>)
    ensures
        r is Some ==> r->0.wf(),
{
    let (y, mo, d, h, mi, s) = local_now_fields();
    if y < 0 || y > 9999 {
        return None;
    }
    Some(
        DateTime {
            year: y as u16,
            month: mo as u8,
            day: d as u8,
            hour: h as u8,
            minute: mi as u8,
            second: s as u8,
        },
    )
}

} // verus!
