//! Civil calendar dates: validity, the `YYYY-MM-DD` text form, neighbouring
//! days, and the day number relative to the Unix epoch (used to bound remote
//! worklog fetches by an epoch-millisecond lower bound).

use vstd::prelude::*;
use crate::strutil::{digit_char, digit_val, is_digit};

verus! {

/// A calendar date in the proleptic Gregorian calendar.
#[derive(Clone, Copy, Debug, PartialEq, Eq, Structural)]
pub struct Date {
    pub year: i32,
    pub month: u8,
    pub day: u8,
}

/// Whether a year is a leap year.
pub open spec fn is_leap_year(y: int) -> bool {
    y % 4 == 0 && (y % 100 != 0 || y % 400 == 0)
}

/// The number of days in a month.
pub open spec fn days_in_month(y: int, m: int) -> int {
    if m == 2 {
        if is_leap_year(y) {
            29
        } else {
            28
        }
    } else if m == 4 || m == 6 || m == 9 || m == 11 {
        30
    } else {
        31
    }
}

impl Date {
    /// A real calendar date within the four-digit-year range.
    pub open spec fn valid(self) -> bool {
        &&& 1 <= self.year <= 9999
        &&& 1 <= self.month <= 12
        &&& 1 <= self.day <= days_in_month(self.year as int, self.month as int)
    }
}

/// The number of days in a month, executable form.
pub fn days_in_month_ex(y: i32, m: u8) -> (r: u8)
    requires
        1 <= m <= 12,
    ensures
        r == days_in_month(y as int, m as int),
{
    if m == 2 {
        if y % 4 == 0 && (y % 100 != 0 || y % 400 == 0) {
            29
        } else {
            28
        }
    } else if m == 4 || m == 6 || m == 9 || m == 11 {
        30
    } else {
        31
    }
}

/// A zero-padded two-digit decimal text.
pub open spec fn pad2_of(n: int) -> Seq<char> {
    seq![digit_char(n / 10 % 10), digit_char(n % 10)]
}

/// A zero-padded four-digit decimal text.
pub open spec fn pad4_of(n: int) -> Seq<char> {
    seq![
        digit_char(n / 1000 % 10),
        digit_char(n / 100 % 10),
        digit_char(n / 10 % 10),
        digit_char(n % 10),
    ]
}

/// The `YYYY-MM-DD` text of a date.
pub open spec fn date_str_of(d: Date) -> Seq<char> {
    pad4_of(d.year as int) + seq!['-'] + pad2_of(d.month as int) + seq!['-'] + pad2_of(d.day as int)
}

fn push_digit(s: String, d: u64) -> (r: String)
    requires
        d <= 9,
    ensures
        r@ == s@ + seq![digit_char(d as int)],
{
    s.concat(crate::strutil::digit_str(d))
}

/// Format a date as `YYYY-MM-DD`.
pub fn date_to_string(d: Date) -> (r: String)
    requires
        d.valid(),
    ensures
        r@ == date_str_of(d),
{
    proof {
        reveal_strlit("-");
    }
    let y = d.year as u64;
    let mo = d.month as u64;
    let dy = d.day as u64;
    let mut s = String::new();
    s = push_digit(s, y / 1000 % 10);
    s = push_digit(s, y / 100 % 10);
    s = push_digit(s, y / 10 % 10);
    s = push_digit(s, y % 10);
    s = s.concat("-");
    s = push_digit(s, mo / 10 % 10);
    s = push_digit(s, mo % 10);
    s = s.concat("-");
    s = push_digit(s, dy / 10 % 10);
    s = push_digit(s, dy % 10);
    proof {
        assert(s@ =~= date_str_of(d));
    }
    s
}

/// Whether a 10-character window is shaped like `YYYY-MM-DD`.
pub open spec fn date_digits_ok(t: Seq<char>) -> bool {
    &&& t.len() == 10
    &&& is_digit(t[0])
    &&& is_digit(t[1])
    &&& is_digit(t[2])
    &&& is_digit(t[3])
    &&& t[4] == '-'
    &&& is_digit(t[5])
    &&& is_digit(t[6])
    &&& t[7] == '-'
    &&& is_digit(t[8])
    &&& is_digit(t[9])
}

/// The year value of a `YYYY-MM-DD` window.
pub open spec fn year_of(t: Seq<char>) -> int {
    digit_val(t[0]) * 1000 + digit_val(t[1]) * 100 + digit_val(t[2]) * 10 + digit_val(t[3])
}

/// The month value of a `YYYY-MM-DD` window.
pub open spec fn month_of(t: Seq<char>) -> int {
    digit_val(t[5]) * 10 + digit_val(t[6])
}

/// The day value of a `YYYY-MM-DD` window.
pub open spec fn day_of(t: Seq<char>) -> int {
    digit_val(t[8]) * 10 + digit_val(t[9])
}

/// The date a `YYYY-MM-DD` text denotes, if it is well-shaped and valid.
pub open spec fn date_of_str(t: Seq<char>) -> Option<Date> {
    if date_digits_ok(t) {
        let d = Date {
            year: year_of(t) as i32,
            month: month_of(t) as u8,
            day: day_of(t) as u8,
        };
        if d.valid() {
            Some(d)
        } else {
            None
        }
    } else {
        None
    }
}

/// The date given by the first ten characters of a timestamp text,
/// such as the stored start instant of a ledger entry.
pub open spec fn date_prefix_of(s: Seq<char>) -> Option<Date> {
    if s.len() >= 10 {
        date_of_str(s.subrange(0, 10))
    } else {
        None
    }
}

fn read_digit(s: &str, i: usize) -> (r: Option<u8>)
    requires
        i < s@.len(),
    ensures
        r is Some <==> is_digit(s@[i as int]),
        r matches Some(v) ==> v == digit_val(s@[i as int]),
{
    let c = s.get_char(i) as u32;
    if '0' as u32 <= c && c <= '9' as u32 {
        Some((c - '0' as u32) as u8)
    } else {
        None
    }
}

/// Parse the `YYYY-MM-DD` date given by the first ten characters of a text.
pub fn parse_date_prefix(s: &str) -> (r: Option<Date>)
    ensures
        r == date_prefix_of(s@),
{
    let n = s.unicode_len();
    if n < 10 {
        return None;
    }
    let ghost t = s@.subrange(0, 10);
    let d0 = read_digit(s, 0);
    let d1 = read_digit(s, 1);
    let d2 = read_digit(s, 2);
    let d3 = read_digit(s, 3);
    let d5 = read_digit(s, 5);
    let d6 = read_digit(s, 6);
    let d8 = read_digit(s, 8);
    let d9 = read_digit(s, 9);
    let dash4 = s.get_char(4) == '-';
    let dash7 = s.get_char(7) == '-';
    proof {
        assert(forall|j: int| 0 <= j < 10 ==> t[j] == s@[j]);
    }
    match (d0, d1, d2, d3, d5, d6, d8, d9) {
        (
            Some(v0),
            Some(v1),
            Some(v2),
            Some(v3),
            Some(v5),
            Some(v6),
            Some(v8),
            Some(v9),
        ) => {
            if !(dash4 && dash7) {
                assert(!date_digits_ok(t));
                return None;
            }
            assert(date_digits_ok(t));
            let year: i32 = v0 as i32 * 1000 + v1 as i32 * 100 + v2 as i32 * 10 + v3 as i32;
            let month: u8 = v5 * 10 + v6;
            let day: u8 = v8 * 10 + v9;
            assert(year == year_of(t) && month == month_of(t) && day == day_of(t));
            let d = Date { year, month, day };
            if year >= 1 && 1 <= month && month <= 12 && 1 <= day && day <= days_in_month_ex(
                year,
                month,
            ) {
                Some(d)
            } else {
                assert(!d.valid());
                None
            }
        },
        _ => {
            assert(!date_digits_ok(t));
            None
        },
    }
}

/// Parse a text that must be exactly a `YYYY-MM-DD` date.
pub fn parse_date(s: &str) -> (r: Option<Date>)
    ensures
        r == date_of_str(s@),
{
    let n = s.unicode_len();
    if n != 10 {
        return None;
    }
    let r = parse_date_prefix(s);
    proof {
        assert(s@.subrange(0, 10) =~= s@);
    }
    r
}

/// The day after a date.
pub open spec fn spec_next_day(d: Date) -> Date {
    if d.day < days_in_month(d.year as int, d.month as int) {
        Date { year: d.year, month: d.month, day: (d.day + 1) as u8 }
    } else if d.month < 12 {
        Date { year: d.year, month: (d.month + 1) as u8, day: 1 }
    } else {
        Date { year: (d.year + 1) as i32, month: 1, day: 1 }
    }
}

/// The day before a date.
pub open spec fn spec_prev_day(d: Date) -> Date {
    if d.day > 1 {
        Date { year: d.year, month: d.month, day: (d.day - 1) as u8 }
    } else if d.month > 1 {
        Date {
            year: d.year,
            month: (d.month - 1) as u8,
            day: days_in_month(d.year as int, d.month as int - 1) as u8,
        }
    } else {
        Date { year: (d.year - 1) as i32, month: 12, day: 31 }
    }
}

/// The day after a date.
pub fn next_day(d: Date) -> (r: Date)
    requires
        d.valid(),
        d.year < 9999,
    ensures
        r == spec_next_day(d),
        r.valid(),
{
    if d.day < days_in_month_ex(d.year, d.month) {
        Date { year: d.year, month: d.month, day: d.day + 1 }
    } else if d.month < 12 {
        Date { year: d.year, month: d.month + 1, day: 1 }
    } else {
        Date { year: d.year + 1, month: 1, day: 1 }
    }
}

/// The day before a date.
pub fn prev_day(d: Date) -> (r: Date)
    requires
        d.valid(),
        d.year > 1,
    ensures
        r == spec_prev_day(d),
        r.valid(),
{
    if d.day > 1 {
        Date { year: d.year, month: d.month, day: d.day - 1 }
    } else if d.month > 1 {
        Date { year: d.year, month: d.month - 1, day: days_in_month_ex(d.year, d.month - 1) }
    } else {
        Date { year: d.year - 1, month: 12, day: 31 }
    }
}

/// The day number of a date counted from 1970-01-01 (which is day 0),
/// by the standard era-based civil-calendar formula.
pub open spec fn epoch_day_of(y: int, m: int, d: int) -> int {
    let yy = if m <= 2 {
        y - 1
    } else {
        y
    };
    let era = yy / 400;
    let yoe = yy - era * 400;
    let mp = if m > 2 {
        m - 3
    } else {
        m + 9
    };
    let doy = (153 * mp + 2) / 5 + d - 1;
    let doe = yoe * 365 + yoe / 4 - yoe / 100 + doy;
    era * 146097 + doe - 719468
}

/// The day number of a date counted from 1970-01-01.
pub fn epoch_day(d: Date) -> (r: i64)
    requires
        d.valid(),
    ensures
        r == epoch_day_of(d.year as int, d.month as int, d.day as int),
{
    let y: u64 = d.year as u64;
    let m: u64 = d.month as u64;
    let dy: u64 = d.day as u64;
    let yy: u64 = if m <= 2 {
        y - 1
    } else {
        y
    };
    let era: u64 = yy / 400;
    let yoe: u64 = yy - era * 400;
    let mp: u64 = if m > 2 {
        m - 3
    } else {
        m + 9
    };
    let doy: u64 = (153 * mp + 2) / 5 + dy - 1;
    let doe: u64 = yoe * 365 + yoe / 4 - yoe / 100 + doy;
    (era * 146097 + doe) as i64 - 719468
}

/// The epoch milliseconds of a date's midnight, UTC.
pub fn epoch_millis_utc_midnight(d: Date) -> (r: i64)
    requires
        d.valid(),
    ensures
        r == epoch_day_of(d.year as int, d.month as int, d.day as int) * 86400000,
{
    let days = epoch_day(d);
    days * 86400000
}

} // verus!
