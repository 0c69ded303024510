//! The validity date of an address: a `YYYY-MM-DD` cell read as midnight UTC.
use vstd::prelude::*;

use crate::number::{all_digits, digits_value, is_digit};

verus! {

/// An instant in UTC, as whole seconds since 1970-01-01T00:00:00Z.
#[derive(Clone, Copy, Debug, PartialEq, Eq, Structural)]
pub struct UtcInstant {
    pub seconds: i64,
}

pub open spec fn is_leap_year(y: int) -> bool {
    (y % 4 == 0 && y % 100 != 0) || y % 400 == 0
}

pub open spec fn days_in_month(y: int, m: int) -> int {
    if m == 2 {
        if is_leap_year(y) { 29 } else { 28 }
    } else if m == 4 || m == 6 || m == 9 || m == 11 {
        30
    } else {
        31
    }
}

/// Whether year, month and day name a day of the proleptic Gregorian calendar.
pub open spec fn is_valid_date(y: int, m: int, d: int) -> bool {
    1 <= m <= 12 && 1 <= d <= days_in_month(y, m)
}

/// The number of days from 1970-01-01 to the given day of the proleptic
/// Gregorian calendar (negative before it).
pub open spec fn days_from_civil(y: int, m: int, d: int) -> int {
    let y2 = if m <= 2 { y - 1 } else { y };
    let era = y2 / 400;
    let yoe = y2 - era * 400;
    let mp = if m > 2 { m - 3 } else { m + 9 };
    let doy = (153 * mp + 2) / 5 + d - 1;
    let doe = yoe * 365 + yoe / 4 - yoe / 100 + doy;
    era * 146097 + doe - 719468
}

/// Seconds since the Unix epoch at midnight UTC of the given day.
pub open spec fn midnight_seconds(y: int, m: int, d: int) -> int {
    days_from_civil(y, m, d) * 86400
}

/// Whether a cell has the shape `YYYY-MM-DD`, with ten characters.
pub open spec fn has_date_shape(s: Seq<char>) -> bool {
    &&& s.len() == 10
    &&& s[4] == '-'
    &&& s[7] == '-'
    &&& all_digits(s.subrange(0, 4))
    &&& all_digits(s.subrange(5, 7))
    &&& all_digits(s.subrange(8, 10))
}

pub open spec fn date_year(s: Seq<char>) -> int {
    digits_value(s.subrange(0, 4))
}

pub open spec fn date_month(s: Seq<char>) -> int {
    digits_value(s.subrange(5, 7))
}

pub open spec fn date_day(s: Seq<char>) -> int {
    digits_value(s.subrange(8, 10))
}

/// The instant a date cell stands for: midnight UTC of the day it names, or
/// nothing when it is not a `YYYY-MM-DD` date of the calendar.
pub open spec fn date_cell_seconds(s: Seq<char>) -> Option<int> {
    if has_date_shape(s) && is_valid_date(date_year(s), date_month(s), date_day(s)) {
        Some(midnight_seconds(date_year(s), date_month(s), date_day(s)))
    } else {
        None
    }
}

/// Relies on chrono's `NaiveDate::from_ymd_opt` (a date exists for each valid
/// year, month and day, and for nothing else) and on the Unix timestamp of
/// that date at midnight, taken as a UTC date time.
#[verifier::external_body]
fn midnight_utc_timestamp(year: i32, month: u32, day: u32) -> (r: Option<i64>)
    requires
        0 <= year <= 9999,
    ensures
        r == (if is_valid_date(year as int, month as int, day as int) {
            Some(midnight_seconds(year as int, month as int, day as int) as i64)
        } else {
            None::<i64>
        }),
{
    match chrono::NaiveDate::from_ymd_opt(year, month, day) {
        Some(date) => Some(date.and_time(chrono::NaiveTime::MIN).and_utc().timestamp()),
        None => None,
    }
}

/// Reads the fixed-width decimal digits `s[from..to]`, or nothing when one of
/// them is not a digit.
fn fixed_digits(s: &str, from: usize, to: usize) -> (r: Option<u32>)
    requires
        from <= to <= s@.len(),
        to - from <= 4,
    ensures
        r is Some <==> all_digits(s@.subrange(from as int, to as int)),
        r is Some ==> r->0 as int == digits_value(s@.subrange(from as int, to as int)),
{
    let ghost d = s@.subrange(from as int, to as int);
    let mut v: u32 = 0;
    let mut i: usize = from;
    while i < to
        invariant
            from <= i <= to <= s@.len(),
            to - from <= 4,
            d == s@.subrange(from as int, to as int),
            all_digits(d.subrange(0, i - from)),
            v as int == digits_value(d.subrange(0, i - from)),
            0 <= v < pow10(i - from),
        decreases to - i,
    {
        let c = s.get_char(i);
        assert(d[i - from] == c);
        if !('0' <= c && c <= '9') {
            assert(!is_digit(d[i - from]));
            return None;
        }
        let g: u32 = c as u32 - '0' as u32;
        let ghost next = d.subrange(0, i - from + 1);
        proof {
            assert(next.drop_last() =~= d.subrange(0, i - from));
            assert(pow10(i - from + 1) == pow10(i - from) * 10);
            assert(v * 10 + g < pow10(i - from) * 10) by (nonlinear_arith)
                requires v < pow10(i - from), g <= 9;
            lemma_small_powers();
        }
        v = v * 10 + g;
        i = i + 1;
        proof {
            assert forall|j: int| 0 <= j < next.len() implies is_digit(#[trigger] next[j]) by {
                if j < next.len() - 1 {
                    assert(next[j] == d.subrange(0, i - 1 - from)[j]);
                }
            }
        }
    }
    assert(d.subrange(0, to - from) =~= d);
    Some(v)
}

pub open spec fn pow10(n: int) -> int
    decreases n,
{
    if n <= 0 { 1 } else { 10 * pow10(n - 1) }
}

/// Reads a validity date cell `YYYY-MM-DD` as the instant at midnight UTC of
/// that day; a cell of another shape, or one that names no day of the
/// calendar, gives `None`.
pub fn deserialize(s: &str) -> (r: Option<UtcInstant>)
    ensures
        r == (match date_cell_seconds(s@) {
            Some(t) => Some(UtcInstant { seconds: t as i64 }),
            None => None::<UtcInstant>,
        }),
        r is Some ==> r->0.seconds as int == date_cell_seconds(s@)->0,
{
    if s.unicode_len() != 10 || s.get_char(4) != '-' || s.get_char(7) != '-' {
        return None;
    }
    let y = fixed_digits(s, 0, 4);
    let m = fixed_digits(s, 5, 7);
    let d = fixed_digits(s, 8, 10);
    match (y, m, d) {
        (Some(y), Some(m), Some(d)) => {
            proof {
                lemma_small_powers();
                lemma_four_digits(s@.subrange(0, 4));
            }
            match midnight_utc_timestamp(y as i32, m, d) {
                Some(t) => {
                    proof {
                        lemma_midnight_bounds(y as int, m as int, d as int);
                    }
                    Some(UtcInstant { seconds: t })
                },
                None => None,
            }
        },
        _ => None,
    }
}

proof fn lemma_small_powers()
    ensures
        pow10(0) == 1,
        pow10(1) == 10,
        pow10(2) == 100,
        pow10(3) == 1000,
        pow10(4) == 10000,
{
    reveal_with_fuel(pow10, 5);
}

proof fn lemma_four_digits(s: Seq<char>)
    requires
        s.len() == 4,
        all_digits(s),
    ensures
        0 <= digits_value(s) <= 9999,
{
    reveal_with_fuel(digits_value, 5);
    assert(s.drop_last().drop_last().drop_last().drop_last().len() == 0);
    assert(is_digit(s[0]) && is_digit(s[1]) && is_digit(s[2]) && is_digit(s[3]));
    assert(s.drop_last()[0] == s[0]);
    assert(s.drop_last().drop_last()[0] == s[0]);
    assert(s.drop_last().drop_last().drop_last()[0] == s[0]);
    assert(s.drop_last().last() == s[2]);
    assert(s.drop_last().drop_last().last() == s[1]);
}

proof fn lemma_midnight_bounds(y: int, m: int, d: int)
    requires
        0 <= y <= 9999,
        is_valid_date(y, m, d),
    ensures
        i64::MIN <= midnight_seconds(y, m, d) <= i64::MAX,
{
    let y2 = if m <= 2 { y - 1 } else { y };
    let era = y2 / 400;
    let yoe = y2 - era * 400;
    assert(-1 <= era <= 24);
    assert(0 <= yoe < 400);
    let mp = if m > 2 { m - 3 } else { m + 9 };
    assert(0 <= (153 * mp + 2) / 5 <= 2000);
    assert(0 <= yoe * 365 <= 146000);
}

} // verus!
