//! Calendar dates in `DD-MM-YYYY` notation: the date type and its validity,
//! printing and parsing, and the current date taken from the system clock.

use vstd::prelude::*;
use vstd::string::*;
use crate::digits::digit_char;
use crate::digits::digit_of;
use crate::digits::digit_str;
use crate::digits::digit_val;
use crate::digits::is_digit;
use crate::digits::pad2;
use crate::digits::push_pad2;
use chrono::Datelike;

verus! {

/// A calendar date. Only dates with a four-digit year can be written in
/// `DD-MM-YYYY` notation, so validity bounds the year as well as the day
/// and the month.
#[derive(PartialEq, Eq, Structural, Clone, Copy, Debug)]
pub struct Date {
    pub day: u8,
    pub month: u8,
    pub year: u16,
}

pub open spec fn date_wf(d: Date) -> bool {
    &&& 1 <= d.day <= 31
    &&& 1 <= d.month <= 12
    &&& d.year <= 9999
}

/// The `DD-MM-YYYY` notation of a date.
pub open spec fn date_rep(d: Date) -> Seq<char> {
    pad2(d.day as int) + seq!['-'] + pad2(d.month as int) + seq!['-'] + pad2(
        d.year as int / 100,
    ) + pad2(d.year as int % 100)
}

/// Whether a string is the `DD-MM-YYYY` notation of some valid date.
pub open spec fn is_date_rep(s: Seq<char>) -> bool {
    &&& s.len() == 10
    &&& is_digit(s[0]) && is_digit(s[1])
    &&& s[2] == '-'
    &&& is_digit(s[3]) && is_digit(s[4])
    &&& s[5] == '-'
    &&& is_digit(s[6]) && is_digit(s[7]) && is_digit(s[8]) && is_digit(s[9])
    &&& 1 <= digit_val(s[0]) * 10 + digit_val(s[1]) <= 31
    &&& 1 <= digit_val(s[3]) * 10 + digit_val(s[4]) <= 12
}

/// The date written in a string that satisfies `is_date_rep`.
pub open spec fn date_of(s: Seq<char>) -> Date {
    Date {
        day: (digit_val(s[0]) * 10 + digit_val(s[1])) as u8,
        month: (digit_val(s[3]) * 10 + digit_val(s[4])) as u8,
        year: (digit_val(s[6]) * 1000 + digit_val(s[7]) * 100 + digit_val(s[8]) * 10 + digit_val(
            s[9],
        )) as u16,
    }
}

/// Prints a date in `DD-MM-YYYY` notation.
pub fn date_to_string(d: &Date) -> (s: String)
    requires
        date_wf(*d),
    ensures
        s@ == date_rep(*d),
{
    let mut s = String::new();
    push_pad2(&mut s, d.day);
    s.append("-");
    push_pad2(&mut s, d.month);
    s.append("-");
    push_pad2(&mut s, (d.year / 100) as u8);
    push_pad2(&mut s, (d.year % 100) as u8);
    proof {
        reveal_strlit("-");
        assert(s@ =~= date_rep(*d));
    }
    s
}

/// Parses `DD-MM-YYYY` notation; `None` exactly when the string is not the
/// notation of a valid date.
pub fn parse_date(s: &str) -> (r: Option<Date>)
    ensures
        r is Some <==> is_date_rep(s@),
        r matches Some(d) ==> d == date_of(s@) && date_wf(d),
{
    let len = s.unicode_len();
    if len != 10 {
        return None;
    }
    proof {
        reveal_strlit("-");
    }
    let d0: u8 = match digit_of(s.get_char(0)) {
        Some(v) => v,
        None => { return None },
    };
    let d1: u8 = match digit_of(s.get_char(1)) {
        Some(v) => v,
        None => { return None },
    };
    if s.get_char(2) != '-' {
        return None;
    }
    let m0: u8 = match digit_of(s.get_char(3)) {
        Some(v) => v,
        None => { return None },
    };
    let m1: u8 = match digit_of(s.get_char(4)) {
        Some(v) => v,
        None => { return None },
    };
    if s.get_char(5) != '-' {
        return None;
    }
    let y0: u8 = match digit_of(s.get_char(6)) {
        Some(v) => v,
        None => { return None },
    };
    let y1: u8 = match digit_of(s.get_char(7)) {
        Some(v) => v,
        None => { return None },
    };
    let y2: u8 = match digit_of(s.get_char(8)) {
        Some(v) => v,
        None => { return None },
    };
    let y3: u8 = match digit_of(s.get_char(9)) {
        Some(v) => v,
        None => { return None },
    };
    let day: u8 = d0 * 10 + d1;
    let month: u8 = m0 * 10 + m1;
    let year: u16 = (y0 as u16) * 1000 + (y1 as u16) * 100 + (y2 as u16) * 10 + (y3 as u16);
    if day < 1 || day > 31 {
        return None;
    }
    if month < 1 || month > 12 {
        return None;
    }
    Some(Date { day, month, year })
}

/// Printing a valid date and reading the result back yields the same date.
pub proof fn lemma_date_round_trip(d: Date)
    requires
        date_wf(d),
    ensures
        is_date_rep(date_rep(d)),
        date_of(date_rep(d)) == d,
{
    let s = date_rep(d);
    let day = d.day as int;
    let month = d.month as int;
    let year = d.year as int;
    assert(s.len() == 10);
    assert(s[0] == digit_char(day / 10));
    assert(s[1] == digit_char(day % 10));
    assert(s[2] == '-');
    assert(s[3] == digit_char(month / 10));
    assert(s[4] == digit_char(month % 10));
    assert(s[5] == '-');
    assert(s[6] == digit_char(year / 100 / 10));
    assert(s[7] == digit_char(year / 100 % 10));
    assert(s[8] == digit_char(year % 100 / 10));
    assert(s[9] == digit_char(year % 100 % 10));
    crate::digits::lemma_digit_char_val(day / 10);
    crate::digits::lemma_digit_char_val(day % 10);
    crate::digits::lemma_digit_char_val(month / 10);
    crate::digits::lemma_digit_char_val(month % 10);
    crate::digits::lemma_digit_char_val(year / 100 / 10);
    crate::digits::lemma_digit_char_val(year / 100 % 10);
    crate::digits::lemma_digit_char_val(year % 100 / 10);
    crate::digits::lemma_digit_char_val(year % 100 % 10);
    assert((year / 100 / 10) * 1000 + (year / 100 % 10) * 100 + (year % 100 / 10) * 10 + (year % 100
        % 10) == year);
}

/// The backing-file name for one month, in `MM-YYYY` notation.
pub fn month_file_name(month: u8, year: u16) -> (s: String)
    requires
        1 <= month <= 12,
        year <= 9999,
    ensures
        s@ == pad2(month as int) + seq!['-'] + pad2(year as int / 100) + pad2(year as int % 100),
{
    let mut s = String::new();
    push_pad2(&mut s, month);
    s.append("-");
    push_pad2(&mut s, (year / 100) as u8);
    push_pad2(&mut s, (year % 100) as u8);
    proof {
        reveal_strlit("-");
        assert(s@ =~= pad2(month as int) + seq!['-'] + pad2(year as int / 100) + pad2(
            year as int % 100,
        ));
    }
    s
}

/// Builds a date from plain day, month and year numbers; `None` exactly
/// when they are not a valid date with a four-digit year.
pub fn date_from_parts(day: u32, month: u32, year: i32) -> (r: Option<Date>)
    ensures
        r is Some <==> 1 <= day <= 31 && 1 <= month <= 12 && 0 <= year <= 9999,
        r matches Some(d) ==> d.day == day as int && d.month == month as int && d.year == year as int
            && date_wf(d),
{
    if 1 <= day && day <= 31 && 1 <= month && month <= 12 && 0 <= year && year <= 9999 {
        Some(Date { day: day as u8, month: month as u8, year: year as u16 })
    } else {
        None
    }
}

/// Relies on chrono's `Utc::now` together with `Datelike::day`, `::month`
/// and `::year`: for any date, `day()` ranges over 1..=31 and `month()`
/// over 1..=12. `Utc::now` itself panics if the system clock stands before
/// the Unix epoch or beyond chrono's timestamp range — an environmental
/// failure no precondition can exclude.
#[verifier::external_body]
fn now_day_month_year() -> (t: (u32, u32, i32))
    ensures
        1 <= t.0 <= 31,
        1 <= t.1 <= 12,
{
    let now = chrono::Utc::now();
    (now.day(), now.month(), now.year())
}

/// The current calendar date in UTC, read from the system clock, built by
/// `date_from_parts`; `None` only when the clock's year does not fit four
/// digits.
pub fn today() -> (r: Option<Date>)
    ensures
        r matches Some(d) ==> date_wf(d),
{
    let (day, month, year) = now_day_month_year();
    date_from_parts(day, month, year)
}

} // verus!
