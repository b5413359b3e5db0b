//! The compact iCalendar date-time text format `YYYYMMDDTHHMMSS`, read as a
//! local wall-clock time, and its rendering back to text.

use vstd::prelude::*;
use crate::bytes::is_digit;

verus! {

/// A wall-clock date and time without a zone, as carried by a `DTSTART`,
/// `DTEND` or `DTSTAMP` value.
#[derive(Clone, Copy, Debug, PartialEq, Eq, Structural)]
pub struct LocalTime {
    pub year: u32,
    pub month: u32,
    pub day: u32,
    pub hour: u32,
    pub minute: u32,
    pub second: u32,
}

pub open spec fn is_leap_year(y: int) -> bool {
    (y % 4 == 0 && y % 100 != 0) || y % 400 == 0
}

pub open spec fn days_in_month(y: int, m: int) -> int {
    if m == 2 {
        if is_leap_year(y) {
            29
        } else {
            28
        }
    } else if m == 4 || m == 6 || m == 9 || m == 11 {
        30
    } else {
        31
    }
}

impl LocalTime {
    /// A proleptic-Gregorian calendar date with a four-digit year, and a
    /// time of day without leap seconds.
    pub open spec fn valid(self) -> bool {
        &&& self.year <= 9999
        &&& 1 <= self.month <= 12
        &&& 1 <= self.day <= days_in_month(self.year as int, self.month as int)
        &&& self.hour < 24
        &&& self.minute < 60
        &&& self.second < 60
    }
}

/// The digit byte of a value in `0 ..= 9`.
pub open spec fn dig(n: int) -> u8 {
    (48 + n) as u8
}

/// The four-digit number written at positions `i .. i + 4`.
pub open spec fn four_digits(s: Seq<u8>, i: int) -> int {
    (s[i] - 48) * 1000 + (s[i + 1] - 48) * 100 + (s[i + 2] - 48) * 10 + (s[i + 3] - 48)
}

/// The two-digit number written at positions `i .. i + 2`.
pub open spec fn two_digits(s: Seq<u8>, i: int) -> int {
    (s[i] - 48) * 10 + (s[i + 1] - 48)
}

/// What parsing a compact date-time text means: exactly fifteen bytes,
/// digits everywhere but for the `T` separator, and components that form a
/// valid calendar date and time of day.
pub open spec fn parse_compact_spec(s: Seq<u8>) -> Option<LocalTime> {
    if s.len() == 15 && s[8] == 84 && (forall|i: int| 0 <= i < 15 && i != 8 ==> is_digit(s[i])) {
        let t = LocalTime {
            year: four_digits(s, 0) as u32,
            month: two_digits(s, 4) as u32,
            day: two_digits(s, 6) as u32,
            hour: two_digits(s, 9) as u32,
            minute: two_digits(s, 11) as u32,
            second: two_digits(s, 13) as u32,
        };
        if t.valid() {
            Some(t)
        } else {
            None
        }
    } else {
        None
    }
}

/// The compact rendering `YYYYMMDDTHHMMSS` of a wall-clock time.
pub open spec fn format_compact_spec(t: LocalTime) -> Seq<u8> {
    seq![
        dig(t.year as int / 1000),
        dig((t.year as int / 100) % 10),
        dig((t.year as int / 10) % 10),
        dig(t.year as int % 10),
        dig(t.month as int / 10),
        dig(t.month as int % 10),
        dig(t.day as int / 10),
        dig(t.day as int % 10),
        84u8,
        dig(t.hour as int / 10),
        dig(t.hour as int % 10),
        dig(t.minute as int / 10),
        dig(t.minute as int % 10),
        dig(t.second as int / 10),
        dig(t.second as int % 10),
    ]
}

/// A number below ten thousand is recovered from its four digits.
proof fn lemma_split_four(n: int)
    requires
        0 <= n <= 9999,
    ensures
        n == (n / 1000) * 1000 + ((n / 100) % 10) * 100 + ((n / 10) % 10) * 10 + n % 10,
        0 <= n / 1000 <= 9,
        0 <= (n / 100) % 10 <= 9,
        0 <= (n / 10) % 10 <= 9,
        0 <= n % 10 <= 9,
{
    vstd::arithmetic::div_mod::lemma_fundamental_div_mod(n, 10);
    vstd::arithmetic::div_mod::lemma_fundamental_div_mod(n / 10, 10);
    vstd::arithmetic::div_mod::lemma_fundamental_div_mod(n / 100, 10);
    vstd::arithmetic::div_mod::lemma_div_denominator(n, 10, 10);
    vstd::arithmetic::div_mod::lemma_div_denominator(n, 100, 10);
}

/// A number below one hundred is recovered from its two digits.
proof fn lemma_split_two(n: int)
    requires
        0 <= n <= 99,
    ensures
        n == (n / 10) * 10 + n % 10,
        0 <= n / 10 <= 9,
        0 <= n % 10 <= 9,
{
    vstd::arithmetic::div_mod::lemma_fundamental_div_mod(n, 10);
}

/// Rendering a valid wall-clock time and parsing the text back yields the
/// same wall-clock time.
pub proof fn lemma_compact_round_trip(t: LocalTime)
    requires
        t.valid(),
    ensures
        parse_compact_spec(format_compact_spec(t)) == Some(t),
{
    let s = format_compact_spec(t);
    lemma_split_four(t.year as int);
    lemma_split_two(t.month as int);
    lemma_split_two(t.day as int);
    lemma_split_two(t.hour as int);
    lemma_split_two(t.minute as int);
    lemma_split_two(t.second as int);
    assert(forall|i: int| 0 <= i < 15 && i != 8 ==> is_digit(s[i]));
    assert(four_digits(s, 0) == t.year);
    assert(two_digits(s, 4) == t.month);
    assert(two_digits(s, 6) == t.day);
    assert(two_digits(s, 9) == t.hour);
    assert(two_digits(s, 11) == t.minute);
    assert(two_digits(s, 13) == t.second);
}

/// Render a wall-clock time as `YYYYMMDDTHHMMSS`.
pub fn format_compact(t: &LocalTime) -> (r: Vec<u8>)
    requires
        t.valid(),
    ensures
        r@ == format_compact_spec(*t),
{
    let mut v: Vec<u8> = Vec::new();
    v.push(48 + (t.year / 1000) as u8);
    v.push(48 + ((t.year / 100) % 10) as u8);
    v.push(48 + ((t.year / 10) % 10) as u8);
    v.push(48 + (t.year % 10) as u8);
    v.push(48 + (t.month / 10) as u8);
    v.push(48 + (t.month % 10) as u8);
    v.push(48 + (t.day / 10) as u8);
    v.push(48 + (t.day % 10) as u8);
    v.push(84);
    v.push(48 + (t.hour / 10) as u8);
    v.push(48 + (t.hour % 10) as u8);
    v.push(48 + (t.minute / 10) as u8);
    v.push(48 + (t.minute % 10) as u8);
    v.push(48 + (t.second / 10) as u8);
    v.push(48 + (t.second % 10) as u8);
    proof {
        lemma_split_four(t.year as int);
        assert(v@ =~= format_compact_spec(*t));
    }
    v
}

fn is_leap_year_x(y: u32) -> (r: bool)
    ensures
        r == is_leap_year(y as int),
{
    (y % 4 == 0 && y % 100 != 0) || y % 400 == 0
}

fn days_in_month_x(y: u32, m: u32) -> (r: u32)
    requires
        1 <= m <= 12,
    ensures
        r == days_in_month(y as int, m as int),
{
    if m == 2 {
        if is_leap_year_x(y) {
            29
        } else {
            28
        }
    } else if m == 4 || m == 6 || m == 9 || m == 11 {
        30
    } else {
        31
    }
}

/// Parse a compact date-time text; malformed text and impossible calendar
/// components yield `None`.
pub fn parse_compact(s: &Vec<u8>) -> (r: Option<LocalTime>)
    ensures
        r == parse_compact_spec(s@),
{
    if s.len() != 15 {
        return None;
    }
    if s[8] != 84 {
        return None;
    }
    let mut i: usize = 0;
    while i < 15
        invariant
            0 <= i <= 15,
            s@.len() == 15,
            forall|j: int| 0 <= j < i && j != 8 ==> is_digit(s@[j]),
        decreases 15 - i,
    {
        if i != 8 {
            let b = s[i];
            if b < 48 || b > 57 {
                return None;
            }
        }
        i += 1;
    }
    let year: u32 = ((s[0] - 48) as u32) * 1000 + ((s[1] - 48) as u32) * 100 + ((s[2] - 48) as u32)
        * 10 + ((s[3] - 48) as u32);
    let month: u32 = ((s[4] - 48) as u32) * 10 + ((s[5] - 48) as u32);
    let day: u32 = ((s[6] - 48) as u32) * 10 + ((s[7] - 48) as u32);
    let hour: u32 = ((s[9] - 48) as u32) * 10 + ((s[10] - 48) as u32);
    let minute: u32 = ((s[11] - 48) as u32) * 10 + ((s[12] - 48) as u32);
    let second: u32 = ((s[13] - 48) as u32) * 10 + ((s[14] - 48) as u32);
    let t = LocalTime { year, month, day, hour, minute, second };
    if month < 1 || month > 12 {
        return None;
    }
    if day < 1 || day > days_in_month_x(year, month) {
        return None;
    }
    if hour >= 24 || minute >= 60 || second >= 60 {
        return None;
    }
    Some(t)
}

} // verus!
