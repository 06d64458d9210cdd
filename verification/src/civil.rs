//! Calendar arithmetic: the day number of a civil date, timestamps in
//! the form `YYYY-MM-DDTHH:MM:SS[.fff]Z`, and the age of a timestamp.

use crate::text::{
    chars_of, find_char, find_char_from, slice_of, trim_end_char, trim_end_char_exec,
};
use vstd::prelude::*;

verus! {

// ---------------------------------------------------------------------
// Day numbers
// ---------------------------------------------------------------------

/// Integer division that rounds toward zero, for a positive divisor.
pub open spec fn trunc_div(a: int, b: int) -> int {
    if a >= 0 {
        a / b
    } else {
        -((-a) / b)
    }
}

/// The number of days from 1970-01-01 to the date `y`-`m`-`d` of the
/// proleptic Gregorian calendar: the year is counted from March, split
/// into an era of 400 years and a year of the era, and the day of the
/// era is added to the days of the eras before.
pub open spec fn civil_days(y: int, m: int, d: int) -> int {
    let y2 = if m <= 2 {
        y - 1
    } else {
        y
    };
    let era = y2 / 400;
    let yoe = y2 - era * 400;
    let mp = if m > 2 {
        m - 3
    } else {
        m + 9
    };
    let doy = trunc_div(153 * mp + 2, 5) + d - 1;
    let doe = yoe * 365 + yoe / 4 - yoe / 100 + doy;
    era * 146097 + doe - 719468
}

/// The largest magnitude of a year, month or day that `days_from_civil` takes.
pub const CIVIL_LIMIT: i64 = 0x100_0000_0000;

/// The day number of the civil date `y`-`m`-`d`, counted from 1970-01-01.
pub fn days_from_civil(y: i64, m: i64, d: i64) -> (days: i64)
    requires
        -CIVIL_LIMIT <= y <= CIVIL_LIMIT,
        -CIVIL_LIMIT <= m <= CIVIL_LIMIT,
        -CIVIL_LIMIT <= d <= CIVIL_LIMIT,
    ensures
        days == civil_days(y as int, m as int, d as int),
{
    let y2: i64 = if m <= 2 {
        y - 1
    } else {
        y
    };
    let era: i64 = if y2 >= 0 {
        y2 / 400
    } else {
        -((399 - y2) / 400)
    };
    let yoe: i64 = y2 - era * 400;
    let mp: i64 = if m > 2 {
        m - 3
    } else {
        m + 9
    };
    let num: i64 = 153 * mp + 2;
    let q: i64 = if num >= 0 {
        num / 5
    } else {
        -((-num) / 5)
    };
    let doy: i64 = q + d - 1;
    let doe: i64 = yoe * 365 + yoe / 4 - yoe / 100 + doy;
    era * 146097 + doe - 719468
}

// ---------------------------------------------------------------------
// Unsigned decimal numbers
// ---------------------------------------------------------------------

/// `c` is one of `0` to `9`.
pub open spec fn is_digit(c: char) -> bool {
    '0' <= c <= '9'
}

/// Every character of `s` is a decimal digit.
pub open spec fn all_digits(s: Seq<char>) -> bool {
    forall|i: int| 0 <= i < s.len() ==> is_digit(#[trigger] s[i])
}

/// The number that the digits of `s` denote.
pub open spec fn digits_value(s: Seq<char>) -> nat
    decreases s.len(),
{
    if s.len() == 0 {
        0
    } else {
        (digits_value(s.drop_last()) * 10 + (s.last() as u32 - 48)) as nat
    }
}

/// The number that `s` denotes as an unsigned 32-bit integer: an optional
/// `+`, then at least one digit and nothing else, the value in range.
pub open spec fn parse_u32(s: Seq<char>) -> Option<u32> {
    let body = if s.len() > 0 && s[0] == '+' {
        s.drop_first()
    } else {
        s
    };
    if body.len() > 0 && all_digits(body) && digits_value(body) <= u32::MAX {
        Some(digits_value(body) as u32)
    } else {
        None
    }
}

proof fn lemma_digits_prefix(s: Seq<char>, k: int)
    requires
        0 <= k <= s.len(),
        all_digits(s),
    ensures
        digits_value(s.take(k)) <= digits_value(s),
    decreases s.len() - k,
{
    if k < s.len() {
        assert(s.take(k + 1).drop_last() =~= s.take(k));
        assert(s.take(k + 1).last() == s[k]);
        assert(is_digit(s[k]));
        lemma_digits_prefix(s, k + 1);
    } else {
        assert(s.take(k) =~= s);
    }
}

/// Reads the characters of `s` from `a` up to `b` as an unsigned number.
pub fn parse_u32_exec(s: &Vec<char>, a: usize, b: usize) -> (r: Option<u32>)
    requires
        a <= b <= s.len(),
    ensures
        r == parse_u32(s@.subrange(a as int, b as int)),
{
    let ghost whole = s@.subrange(a as int, b as int);
    let start: usize = if a < b && s[a] == '+' {
        a + 1
    } else {
        a
    };
    let ghost body = s@.subrange(start as int, b as int);
    assert(body =~= if whole.len() > 0 && whole[0] == '+' {
        whole.drop_first()
    } else {
        whole
    });
    if start == b {
        return None;
    }
    let mut value: u64 = 0;
    let mut i: usize = start;
    assert(body.take(0) =~= Seq::<char>::empty());
    while i < b
        invariant
            a <= start <= i <= b <= s.len(),
            start < b,
            body == s@.subrange(start as int, b as int),
            whole == s@.subrange(a as int, b as int),
            body == if whole.len() > 0 && whole[0] == '+' {
                whole.drop_first()
            } else {
                whole
            },
            all_digits(body.take(i - start)),
            value == digits_value(body.take(i - start)),
            value <= u32::MAX,
        decreases b - i,
    {
        let c: char = s[i];
        if !('0' <= c && c <= '9') {
            assert(body[i - start] == c);
            return None;
        }
        let ghost next = body.take(i - start + 1);
        assert(next.drop_last() =~= body.take(i - start));
        assert(next.last() == c);
        assert(all_digits(next)) by {
            assert forall|j: int| 0 <= j < next.len() implies is_digit(#[trigger] next[j]) by {
                if j < next.len() - 1 {
                    assert(next[j] == body.take(i - start)[j]);
                }
            }
        }
        let d: u64 = (c as u32 - 48) as u64;
        let wide: u64 = value * 10 + d;
        if wide > 0xFFFF_FFFF {
            proof {
                if all_digits(body) {
                    lemma_digits_prefix(body, i - start + 1);
                }
            }
            return None;
        }
        value = wide;
        i += 1;
    }
    assert(body.take(b - start) =~= body);
    Some(value as u32)
}

/// The numbers among the pieces of `s` (from index `start` on) that
/// `sep` separates; a piece that is no number is passed over.
pub open spec fn numbers_from(s: Seq<char>, sep: char, start: int) -> Seq<u32>
    decreases s.len() - start,
{
    let e = find_char_from(s, sep, start);
    if 0 <= start <= e < s.len() {
        number_or_nothing(s.subrange(start, e)) + numbers_from(s, sep, e + 1)
    } else {
        number_or_nothing(s.subrange(start, s.len() as int))
    }
}

/// The number that `piece` denotes, as a sequence of one or no element.
pub open spec fn number_or_nothing(piece: Seq<char>) -> Seq<u32> {
    match parse_u32(piece) {
        Some(v) => seq![v],
        None => Seq::empty(),
    }
}

/// The numbers among the pieces of `s[a..b]` that `sep` separates.
pub fn numbers_in(s: &Vec<char>, sep: char, a: usize, b: usize) -> (r: Vec<u32>)
    requires
        a <= b <= s.len(),
    ensures
        r@ == numbers_from(s@.subrange(a as int, b as int), sep, 0),
{
    let part = slice_of(s, a, b);
    let mut out: Vec<u32> = Vec::new();
    let mut start: usize = 0;
    loop
        invariant
            start <= part.len(),
            part@ == s@.subrange(a as int, b as int),
            out@ + numbers_from(part@, sep, start as int) == numbers_from(part@, sep, 0),
        decreases part.len() - start,
    {
        let e: usize = find_char(&part, sep, start);
        let ghost before = out@;
        match parse_u32_exec(&part, start, e) {
            Some(v) => {
                out.push(v);
            },
            None => {},
        }
        assert(out@ =~= before + number_or_nothing(part@.subrange(start as int, e as int)));
        if e >= part.len() {
            assert(out@ =~= numbers_from(part@, sep, 0));
            return out;
        }
        assert(out@ + numbers_from(part@, sep, e + 1) =~= before + numbers_from(
            part@,
            sep,
            start as int,
        ));
        start = e + 1;
    }
}

// ---------------------------------------------------------------------
// Timestamps
// ---------------------------------------------------------------------

/// Seconds from the epoch to the given date and time of day.
pub open spec fn epoch_seconds(date: Seq<u32>, time: Seq<u32>) -> int {
    civil_days(date[0] as int, date[1] as int, date[2] as int) * 86400 + time[0] * 3600 + time[1]
        * 60 + time[2]
}

/// The instant that the text `s` names, in seconds from the epoch.
///
/// Trailing `Z`s are ignored.  The first `T` parts date and time; the
/// date must hold exactly three numbers between its `-`s, and the time,
/// up to its first `.`, exactly three between its `:`s.
pub open spec fn iso8601_epoch(s: Seq<char>) -> Option<int> {
    let body = trim_end_char(s, 'Z');
    let t = find_char_from(body, 'T', 0);
    if t >= body.len() {
        None
    } else {
        let date = numbers_from(body.subrange(0, t), '-', 0);
        let clock = body.subrange(t + 1, body.len() as int);
        let dot = find_char_from(clock, '.', 0);
        let time = numbers_from(clock.subrange(0, dot), ':', 0);
        if date.len() == 3 && time.len() == 3 {
            Some(epoch_seconds(date, time))
        } else {
            None
        }
    }
}

/// Reads a timestamp of the form `YYYY-MM-DDTHH:MM:SS[.fff]Z` and gives
/// the seconds from the epoch to it.
pub fn parse_iso8601_to_epoch(s: &str) -> (r: Result<i64, ()>)
    ensures
        match r {
            Ok(v) => iso8601_epoch(s@) == Some(v as int),
            Err(_) => iso8601_epoch(s@) is None,
        },
{
    let raw = chars_of(s);
    let body = trim_end_char_exec(&raw, 'Z');
    let t: usize = find_char(&body, 'T', 0);
    if t >= body.len() {
        return Err(());
    }
    let date = numbers_in(&body, '-', 0, t);
    let clock = slice_of(&body, t + 1, body.len());
    let dot: usize = find_char(&clock, '.', 0);
    let time = numbers_in(&clock, ':', 0, dot);
    if date.len() != 3 || time.len() != 3 {
        return Err(());
    }
    let days: i64 = days_from_civil(date[0] as i64, date[1] as i64, date[2] as i64);
    proof {
        lemma_civil_days_range(date[0] as int, date[1] as int, date[2] as int);
    }
    Ok(days * 86400 + (time[0] as i64) * 3600 + (time[1] as i64) * 60 + (time[2] as i64))
}

proof fn lemma_civil_days_range(y: int, m: int, d: int)
    requires
        0 <= y <= u32::MAX,
        0 <= m <= u32::MAX,
        0 <= d <= u32::MAX,
    ensures
        -0x1_0000_0000_0000 <= civil_days(y, m, d) <= 0x1_0000_0000_0000,
{
}

// ---------------------------------------------------------------------
// Ages
// ---------------------------------------------------------------------

/// Sixty days in milliseconds: the greatest age that is told apart.
pub const MAX_AGE_MILLIS: u64 = 5_184_000_000;

/// One day in milliseconds.
pub const DAY_MILLIS: u64 = 86_400_000;

/// The age at `now_millis` (milliseconds from the epoch) of the instant
/// that `created_at` names, in milliseconds: zero for an instant in the
/// future or a text that names none, and at most sixty days.
pub open spec fn age_millis(created_at: Seq<char>, now_millis: u64) -> int {
    match iso8601_epoch(created_at) {
        Some(ts) => {
            let diff = now_millis - ts * 1000;
            if diff < 0 {
                0
            } else if diff > MAX_AGE_MILLIS {
                MAX_AGE_MILLIS as int
            } else {
                diff
            }
        },
        None => 0,
    }
}

/// The age of the timestamp `created_at` at the instant `now_millis`.
pub fn elapsed_millis_since(created_at: &str, now_millis: u64) -> (r: u64)
    ensures
        r == age_millis(created_at@, now_millis),
        r <= MAX_AGE_MILLIS,
{
    match parse_iso8601_to_epoch(created_at) {
        Ok(ts) => {
            let diff: i128 = (now_millis as i128) - (ts as i128) * 1000;
            if diff < 0 {
                0
            } else if diff > MAX_AGE_MILLIS as i128 {
                MAX_AGE_MILLIS
            } else {
                diff as u64
            }
        },
        Err(_) => 0,
    }
}

// ---------------------------------------------------------------------
// Laws
// ---------------------------------------------------------------------

/// A leap year of the Gregorian calendar.
pub open spec fn is_leap_year(y: int) -> bool {
    y % 4 == 0 && (y % 100 != 0 || y % 400 == 0)
}

/// The number of days of the month `m` of the year `y`.
pub open spec fn days_in_month(y: int, m: int) -> int {
    if m == 2 {
        if is_leap_year(y) {
            29
        } else {
            28
        }
    } else if m == 4 || m == 6 || m == 9 || m == 11 {
        30
    } else {
        31
    }
}

/// The days of the years before the year `y`, counted in eras of 400
/// years.
pub open spec fn days_before_year(y: int) -> int {
    let era = y / 400;
    let yoe = y - era * 400;
    era * 146097 + yoe * 365 + yoe / 4 - yoe / 100
}

/// The days of a year that is counted from March, before its month
/// `mp` (0 for March).
pub open spec fn days_before_month(mp: int) -> int {
    trunc_div(153 * mp + 2, 5)
}

proof fn lemma_civil_days_parts(y: int, m: int, d: int)
    ensures
        civil_days(y, m, d) == days_before_year(
            if m <= 2 {
                y - 1
            } else {
                y
            },
        ) + days_before_month(
            if m > 2 {
                m - 3
            } else {
                m + 9
            },
        ) + d - 1 - 719468,
{
}

proof fn lemma_month_table()
    ensures
        days_before_month(0) == 0,
        days_before_month(1) == 31,
        days_before_month(2) == 61,
        days_before_month(3) == 92,
        days_before_month(4) == 122,
        days_before_month(5) == 153,
        days_before_month(6) == 184,
        days_before_month(7) == 214,
        days_before_month(8) == 245,
        days_before_month(9) == 275,
        days_before_month(10) == 306,
        days_before_month(11) == 337,
{
}

proof fn lemma_year_length(y: int)
    ensures
        days_before_year(y) == days_before_year(y - 1) + 365 + if is_leap_year(y) {
            1int
        } else {
            0int
        },
{
    let p = y - 1;
    let era_p = p / 400;
    let era_y = y / 400;
    let yoe_p = p - era_p * 400;
    let yoe_y = y - era_y * 400;
    assert(0 <= yoe_y < 400 && 0 <= yoe_p < 400);
    if yoe_y == 0 {
        assert(era_y == era_p + 1);
        assert(yoe_p == 399);
        assert(y % 400 == 0);
    } else {
        assert(era_y == era_p);
        assert(yoe_p == yoe_y - 1);
        assert(y % 400 != 0);
        assert((y % 4 == 0) == (yoe_y % 4 == 0));
        assert((y % 100 == 0) == (yoe_y % 100 == 0));
        assert(yoe_y / 4 - yoe_p / 4 == if yoe_y % 4 == 0 {
            1int
        } else {
            0int
        });
        assert(yoe_y / 100 - yoe_p / 100 == if yoe_y % 100 == 0 {
            1int
        } else {
            0int
        });
    }
}

/// Day numbers count the days of the Gregorian calendar: the epoch
/// has the number zero, each day of a month follows the one before,
/// the first day of a month follows the last of the month before, and
/// the first of January the last of December.
pub proof fn lemma_civil_days_count_days(y: int, m: int, d: int)
    requires
        1 <= m <= 12,
    ensures
        civil_days(1970, 1, 1) == 0,
        civil_days(y, m, d + 1) == civil_days(y, m, d) + 1,
        m < 12 ==> civil_days(y, m + 1, 1) == civil_days(y, m, days_in_month(y, m)) + 1,
        m == 12 ==> civil_days(y + 1, 1, 1) == civil_days(y, 12, 31) + 1,
{
    lemma_month_table();
    lemma_civil_days_parts(1970, 1, 1);
    assert(days_before_year(1969) == 4 * 146097 + 369 * 365 + 92 - 3);
    lemma_civil_days_parts(y, m, d);
    lemma_civil_days_parts(y, m, d + 1);
    lemma_civil_days_parts(y, m, days_in_month(y, m));
    if m < 12 {
        lemma_civil_days_parts(y, m + 1, 1);
        if m == 2 {
            lemma_year_length(y);
        }
    } else {
        lemma_civil_days_parts(y + 1, 1, 1);
    }
}

} // verus!
