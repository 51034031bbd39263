//! The proleptic Gregorian calendar as Bear's dates use it: days since
//! 1970-01-01, reading a `YYYY-MM-DD` date, and writing a date and a time
//! of day the way `chrono` writes `%Y-%m-%dT%H:%M:%SZ`.
use vstd::prelude::*;

use vstd::arithmetic::div_mod::{
    lemma_fundamental_div_mod, lemma_fundamental_div_mod_converse_div,
    lemma_fundamental_div_mod_converse_mod,
};

use crate::text::{
    decimal, decimal_chars, digit_char, extend_chars, is_ws, trim_start, trim_start_index,
};

verus! {

// ---------------------------------------------------------------------------
// The calendar
// ---------------------------------------------------------------------------

/// The first year a date may have (as in `chrono`).
pub open spec fn min_year() -> int {
    -262_143
}

/// The last year a date may have (as in `chrono`).
pub open spec fn max_year() -> int {
    262_142
}

/// Leap years of the Gregorian calendar.
pub open spec fn is_leap(y: int) -> bool {
    y % 4 == 0 && (y % 100 != 0 || y % 400 == 0)
}

/// The number of days in year `y`.
pub open spec fn year_days(y: int) -> int {
    if is_leap(y) {
        366
    } else {
        365
    }
}

/// The number of days in month `m` (1 to 12) of year `y`.
pub open spec fn month_days(y: int, m: int) -> int {
    if m == 2 {
        if is_leap(y) {
            29
        } else {
            28
        }
    } else if m == 4 || m == 6 || m == 9 || m == 11 {
        30
    } else {
        31
    }
}

/// `y`-`m`-`d` is a day of the calendar.
pub open spec fn is_calendar_date(y: int, m: int, d: int) -> bool {
    1 <= m <= 12 && 1 <= d <= month_days(y, m)
}

/// `y`-`m`-`d` is a day of the calendar within the years a date may have.
pub open spec fn valid_date(y: int, m: int, d: int) -> bool {
    min_year() <= y <= max_year() && is_calendar_date(y, m, d)
}

/// The day after `y`-`m`-`d`.
pub open spec fn next_date(y: int, m: int, d: int) -> (int, int, int) {
    if d < month_days(y, m) {
        (y, m, d + 1)
    } else if m < 12 {
        (y, m + 1, 1)
    } else {
        (y + 1, 1, 1)
    }
}

/// The number of days from 1970-01-01 to the first of January of `y`
/// (negative before 1970): the lengths of the years between, counted.
pub open spec fn days_before_year(y: int) -> int
    decreases (if y >= 1970 {
        y - 1970
    } else {
        1970 - y
    }),
{
    if y == 1970 {
        0
    } else if y > 1970 {
        days_before_year(y - 1) + year_days(y - 1)
    } else {
        days_before_year(y + 1) - year_days(y)
    }
}

/// The number of days of year `y` before month `m`.
pub open spec fn days_before_month(y: int, m: int) -> int
    decreases m,
{
    if m <= 1 {
        0
    } else {
        days_before_month(y, m - 1) + month_days(y, m - 1)
    }
}

/// The number of days from 1970-01-01 to `y`-`m`-`d`.
pub open spec fn days_from_epoch(y: int, m: int, d: int) -> int {
    days_before_year(y) + days_before_month(y, m) + d - 1
}

proof fn lemma_year_step(y: int)
    ensures
        days_before_year(y + 1) == days_before_year(y) + year_days(y),
{
}

proof fn lemma_years_increase(a: int, b: int)
    requires
        a <= b,
    ensures
        days_before_year(a) + 365 * (b - a) <= days_before_year(b),
        days_before_year(b) <= days_before_year(a) + 366 * (b - a),
    decreases b - a,
{
    if a < b {
        lemma_years_increase(a, b - 1);
        lemma_year_step(b - 1);
    }
}

proof fn lemma_month_table(y: int)
    ensures
        days_before_month(y, 1) == 0,
        days_before_month(y, 13) == year_days(y),
        forall|m: int| 1 <= m <= 12 ==> #[trigger] days_before_month(y, m + 1) == days_before_month(y, m) + month_days(y, m),
{
    reveal_with_fuel(days_before_month, 13);
}

proof fn lemma_months_increase(y: int, a: int, b: int)
    requires
        1 <= a < b <= 13,
    ensures
        days_before_month(y, a) + month_days(y, a) <= days_before_month(y, b),
    decreases b - a,
{
    if a + 1 < b {
        lemma_months_increase(y, a, b - 1);
    }
}

/// A day of the calendar falls within its year.
proof fn lemma_date_in_year(y: int, m: int, d: int)
    requires
        is_calendar_date(y, m, d),
    ensures
        days_before_year(y) <= days_from_epoch(y, m, d) < days_before_year(y + 1),
        days_before_month(y, m) <= days_before_month(y, m) + d - 1 < days_before_month(y, m) + month_days(y, m),
{
    lemma_month_table(y);
    lemma_year_step(y);
    lemma_months_increase(y, m, 13);
    if m > 1 {
        lemma_months_increase(y, 1, m);
    }
}

/// Two days of the calendar with the same day count are the same day.
pub proof fn lemma_day_count_unique(y1: int, m1: int, d1: int, y2: int, m2: int, d2: int)
    requires
        is_calendar_date(y1, m1, d1),
        is_calendar_date(y2, m2, d2),
        days_from_epoch(y1, m1, d1) == days_from_epoch(y2, m2, d2),
    ensures
        y1 == y2 && m1 == m2 && d1 == d2,
{
    lemma_date_in_year(y1, m1, d1);
    lemma_date_in_year(y2, m2, d2);
    if y1 < y2 {
        lemma_years_increase(y1 + 1, y2);
    } else if y2 < y1 {
        lemma_years_increase(y2 + 1, y1);
    }
    assert(y1 == y2);
    if m1 < m2 {
        lemma_months_increase(y1, m1, m2);
    } else if m2 < m1 {
        lemma_months_increase(y1, m2, m1);
    }
}

/// The day after a day of the calendar is a day of the calendar, counted
/// one more.
pub proof fn lemma_next_date(y: int, m: int, d: int)
    requires
        is_calendar_date(y, m, d),
    ensures
        is_calendar_date(next_date(y, m, d).0, next_date(y, m, d).1, next_date(y, m, d).2),
        days_from_epoch(next_date(y, m, d).0, next_date(y, m, d).1, next_date(y, m, d).2)
            == days_from_epoch(y, m, d) + 1,
{
    lemma_month_table(y);
    lemma_year_step(y);
}

// ---------------------------------------------------------------------------
// Counting days
// ---------------------------------------------------------------------------

fn is_leap_year(y: i64) -> (r: bool)
    requires
        min_year() - 1 <= y <= max_year() + 1,
    ensures
        r == is_leap(y as int),
{
    let s: u64 = (y + 400_000) as u64;
    proof {
        let yi = y as int;
        assert((yi + 400_000) % 4 == yi % 4) by (nonlinear_arith);
        assert((yi + 400_000) % 100 == yi % 100) by (nonlinear_arith);
        assert((yi + 400_000) % 400 == yi % 400) by (nonlinear_arith);
    }
    s % 4 == 0 && (s % 100 != 0 || s % 400 == 0)
}

fn year_days_of(y: i64) -> (r: i64)
    requires
        min_year() - 1 <= y <= max_year() + 1,
    ensures
        r == year_days(y as int),
{
    if is_leap_year(y) {
        366
    } else {
        365
    }
}

fn month_days_of(y: i64, m: u64) -> (r: u64)
    requires
        min_year() - 1 <= y <= max_year() + 1,
    ensures
        r == month_days(y as int, m as int),
{
    if m == 2 {
        if is_leap_year(y) {
            29
        } else {
            28
        }
    } else if m == 4 || m == 6 || m == 9 || m == 11 {
        30
    } else {
        31
    }
}

/// The number of days from 1970-01-01 to `y`-`m`-`d`.
pub fn day_count(y: i64, m: u64, d: u64) -> (r: i64)
    requires
        valid_date(y as int, m as int, d as int),
    ensures
        r == days_from_epoch(y as int, m as int, d as int),
        -100_000_000 < r < 100_000_000,
{
    let mut k: i64 = 1970;
    let mut acc: i64 = 0;
    if y >= 1970 {
        while k < y
            invariant
                1970 <= k <= y,
                y <= max_year(),
                acc == days_before_year(k as int),
                0 <= acc <= 366 * (k - 1970),
            decreases y - k,
        {
            proof {
                lemma_year_step(k as int);
            }
            acc = acc + year_days_of(k);
            k = k + 1;
        }
    } else {
        while k > y
            invariant
                y <= k <= 1970,
                min_year() <= y,
                acc == days_before_year(k as int),
                -366 * (1970 - k) <= acc <= 0,
            decreases k - y,
        {
            k = k - 1;
            proof {
                lemma_year_step(k as int);
            }
            acc = acc - year_days_of(k);
        }
    }
    let mut j: u64 = 1;
    let mut before: i64 = 0;
    while j < m
        invariant
            1 <= j <= m <= 12,
            min_year() <= y <= max_year(),
            before == days_before_month(y as int, j as int),
            0 <= before <= 31 * (j - 1),
        decreases m - j,
    {
        before = before + month_days_of(y, j) as i64;
        j = j + 1;
    }
    acc + before + d as i64 - 1
}

/// The whole days and the seconds left of `secs` seconds after
/// 1970-01-01T00:00:00, days rounded down.
pub fn split_seconds(secs: i64) -> (r: (i64, u64))
    ensures
        r.0 == secs as int / 86400,
        r.1 == secs as int % 86400,
{
    if secs >= 0 {
        let s = secs as u64;
        ((s / 86400) as i64, s % 86400)
    } else {
        let p: u64 = (-(secs + 1)) as u64;
        let q = p / 86400;
        let r0 = p % 86400;
        proof {
            lemma_fundamental_div_mod(p as int, 86400);
            let day = -(q as int) - 1;
            let rem = 86399 - r0;
            assert(secs as int == day * 86400 + rem);
            lemma_fundamental_div_mod_converse_div(secs as int, 86400, day, rem);
            lemma_fundamental_div_mod_converse_mod(secs as int, 86400, day, rem);
        }
        (-(q as i64) - 1, 86399 - r0)
    }
}

/// The day of the calendar that is `day` days after 1970-01-01, `None`
/// when that day lies outside the years a date may have.
pub fn date_of_day(day: i64) -> (r: Option<(i64, u64, u64)>)
    ensures
        match r {
            Some((y, m, d)) => valid_date(y as int, m as int, d as int) && days_from_epoch(
                y as int,
                m as int,
                d as int,
            ) == day,
            None => !exists|y: int, m: int, d: int|
                valid_date(y, m, d) && #[trigger] days_from_epoch(y, m, d) == day,
        },
{
    let mut y: i64 = 1970;
    let mut acc: i64 = 0;
    if day >= 0 {
        while y <= 262_142 && day >= acc + year_days_of(y)
            invariant
                1970 <= y <= max_year() + 1,
                acc == days_before_year(y as int),
                0 <= acc <= day,
                acc <= 366 * (y - 1970),
            decreases max_year() + 1 - y,
        {
            proof {
                lemma_year_step(y as int);
            }
            acc = acc + year_days_of(y);
            y = y + 1;
        }
        if y > 262_142 {
            proof {
                assert forall|y1: int, m1: int, d1: int|
                    valid_date(y1, m1, d1) implies #[trigger] days_from_epoch(y1, m1, d1) != day by {
                    lemma_date_in_year(y1, m1, d1);
                    lemma_years_increase(y1 + 1, max_year() + 1);
                }
            }
            return None;
        }
        proof {
            lemma_year_step(y as int);
        }
    } else {
        proof {
            lemma_year_step(1970);
        }
        while y > -262_143 && acc > day
            invariant
                min_year() <= y <= 1970,
                acc == days_before_year(y as int),
                day < days_before_year(y + 1),
                -366 * (1970 - y) <= acc <= 0,
            decreases y - min_year(),
        {
            y = y - 1;
            proof {
                lemma_year_step(y as int);
            }
            acc = acc - year_days_of(y);
        }
        if acc > day {
            proof {
                assert forall|y1: int, m1: int, d1: int|
                    valid_date(y1, m1, d1) implies #[trigger] days_from_epoch(y1, m1, d1) != day by {
                    lemma_date_in_year(y1, m1, d1);
                    lemma_years_increase(min_year(), y1);
                }
            }
            return None;
        }
    }
    let mut rem: i64 = day - acc;
    let mut m: u64 = 1;
    proof {
        lemma_month_table(y as int);
        lemma_year_step(y as int);
    }
    while rem >= month_days_of(y, m) as i64
        invariant
            1 <= m <= 12,
            min_year() <= y <= max_year(),
            days_before_month(y as int, 13) == year_days(y as int),
            forall|k: int| 1 <= k <= 12 ==> #[trigger] days_before_month(y as int, k + 1)
                == days_before_month(y as int, k) + month_days(y as int, k),
            rem == day - days_before_year(y as int) - days_before_month(y as int, m as int),
            0 <= rem < year_days(y as int) - days_before_month(y as int, m as int),
        decreases 12 - m,
    {
        rem = rem - month_days_of(y, m) as i64;
        m = m + 1;
    }
    Some((y, m, (rem + 1) as u64))
}

// ---------------------------------------------------------------------------
// Writing dates and times
// ---------------------------------------------------------------------------

/// `k` zero digits.
pub open spec fn zeros(k: nat) -> Seq<char> {
    Seq::new(k, |i: int| '0')
}

/// The decimal text of `n`, with zeros in front up to `width` characters.
pub open spec fn padded(n: nat, width: nat) -> Seq<char> {
    if decimal(n).len() < width {
        zeros((width - decimal(n).len()) as nat) + decimal(n)
    } else {
        decimal(n)
    }
}

/// A year as `chrono` writes `%Y`: four digits for years 0 to 9999,
/// otherwise a sign and at least four digits.
pub open spec fn year_text(y: int) -> Seq<char> {
    if 0 <= y <= 9999 {
        padded(y as nat, 4)
    } else if y < 0 {
        seq!['-'] + padded((-y) as nat, 4)
    } else {
        seq!['+'] + padded(y as nat, 4)
    }
}

/// The date `y`-`m`-`d` written `%Y-%m-%d`.
pub open spec fn date_text(y: int, m: int, d: int) -> Seq<char> {
    year_text(y) + seq!['-'] + padded(m as nat, 2) + seq!['-'] + padded(d as nat, 2)
}

/// The time of day `h`:`mi`:`s` written `%H:%M:%S`.
pub open spec fn clock_text(h: int, mi: int, s: int) -> Seq<char> {
    padded(h as nat, 2) + seq![':'] + padded(mi as nat, 2) + seq![':'] + padded(s as nat, 2)
}

/// The UTC time `secs` seconds after 1970-01-01T00:00:00 written
/// `%Y-%m-%dT%H:%M:%SZ`: the date of its day, `T`, its time of day, `Z`;
/// `None` when its day lies outside the years a date may have.
pub open spec fn utc_text_of(secs: int) -> Option<Seq<char>> {
    let day = secs / 86400;
    let s = secs % 86400;
    if exists|y: int, m: int, d: int| valid_date(y, m, d) && #[trigger] days_from_epoch(y, m, d) == day {
        let (y, m, d) = choose|y: int, m: int, d: int|
            valid_date(y, m, d) && #[trigger] days_from_epoch(y, m, d) == day;
        Some(date_text(y, m, d) + seq!['T'] + clock_text(s / 3600, (s % 3600) / 60, s % 60) + seq!['Z'])
    } else {
        None
    }
}

/// The decimal text of `n`, with zeros in front up to `width` characters.
fn padded_chars(n: u64, width: usize) -> (r: Vec<char>)
    ensures
        r@ == padded(n as nat, width as nat),
{
    let digits = decimal_chars(n);
    let mut r: Vec<char> = Vec::new();
    if digits.len() < width {
        let k = width - digits.len();
        for i in 0..k
            invariant
                r@ == zeros(i as nat),
        {
            r.push('0');
            assert(r@ =~= zeros((i + 1) as nat));
        }
    }
    extend_chars(&mut r, digits.as_slice());
    r
}

/// The date `y`-`m`-`d` written `%Y-%m-%d`.
fn date_chars(y: i64, m: u64, d: u64) -> (r: Vec<char>)
    requires
        valid_date(y as int, m as int, d as int),
    ensures
        r@ == date_text(y as int, m as int, d as int),
{
    let mut r: Vec<char> = Vec::new();
    if 0 <= y && y <= 9999 {
        r = padded_chars(y as u64, 4);
    } else if y < 0 {
        r.push('-');
        let p = padded_chars((-y) as u64, 4);
        extend_chars(&mut r, p.as_slice());
    } else {
        r.push('+');
        let p = padded_chars(y as u64, 4);
        extend_chars(&mut r, p.as_slice());
    }
    assert(r@ == year_text(y as int));
    r.push('-');
    let mp = padded_chars(m, 2);
    extend_chars(&mut r, mp.as_slice());
    r.push('-');
    let dp = padded_chars(d, 2);
    extend_chars(&mut r, dp.as_slice());
    r
}

/// The UTC time `secs` seconds after 1970-01-01T00:00:00 written
/// `%Y-%m-%dT%H:%M:%SZ`, `None` when its day lies outside the years a date
/// may have.
pub fn utc_chars(secs: i64) -> (r: Option<Vec<char>>)
    ensures
        match r {
            Some(v) => utc_text_of(secs as int) == Some(v@),
            None => utc_text_of(secs as int) is None,
        },
{
    let (day, s) = split_seconds(secs);
    match date_of_day(day) {
        None => None,
        Some((y, m, d)) => {
            let mut r = date_chars(y, m, d);
            r.push('T');
            let hp = padded_chars(s / 3600, 2);
            extend_chars(&mut r, hp.as_slice());
            r.push(':');
            let mp = padded_chars((s % 3600) / 60, 2);
            extend_chars(&mut r, mp.as_slice());
            r.push(':');
            let sp = padded_chars(s % 60, 2);
            extend_chars(&mut r, sp.as_slice());
            r.push('Z');
            proof {
                let day_i = secs as int / 86400;
                assert(valid_date(y as int, m as int, d as int) && days_from_epoch(y as int, m as int, d as int) == day_i);
                let (cy, cm, cd) = choose|y1: int, m1: int, d1: int|
                    valid_date(y1, m1, d1) && #[trigger] days_from_epoch(y1, m1, d1) == day_i;
                lemma_day_count_unique(y as int, m as int, d as int, cy, cm, cd);
                assert(r@ =~= date_text(y as int, m as int, d as int) + seq!['T'] + clock_text(
                    (s / 3600) as int,
                    ((s % 3600) / 60) as int,
                    (s % 60) as int,
                ) + seq!['Z']);
            }
            Some(r)
        },
    }
}

// ---------------------------------------------------------------------------
// Reading dates
// ---------------------------------------------------------------------------

/// An ASCII decimal digit.
pub open spec fn is_digit(c: char) -> bool {
    '0' <= c && c <= '9'
}

/// The number of digits `s` starts with, at most `max`.
pub open spec fn digit_run(s: Seq<char>, max: nat) -> nat
    decreases s.len(),
{
    if s.len() == 0 || max == 0 || !is_digit(s[0]) {
        0
    } else {
        1 + digit_run(s.drop_first(), (max - 1) as nat)
    }
}

/// The number the decimal digits of `s` spell.
pub open spec fn digits_value(s: Seq<char>) -> int
    decreases s.len(),
{
    if s.len() == 0 {
        0
    } else {
        digits_value(s.drop_last()) * 10 + (s.last() as int - 48)
    }
}

/// A number of one to `max` digits after leading whitespace, as `chrono`
/// reads `%m` and `%d` (`max` 2) and an unsigned `%Y` (`max` 4), and what
/// follows it.
pub open spec fn read_number(s: Seq<char>, max: nat) -> Option<(int, Seq<char>)> {
    let t = trim_start(s);
    let n = digit_run(t, max);
    if n == 0 {
        None
    } else {
        Some((digits_value(t.take(n as int)), t.skip(n as int)))
    }
}

/// A year as `chrono` reads `%Y`: after leading whitespace, a sign and any
/// number of digits, or one to four digits; and what follows it.
pub open spec fn read_year(s: Seq<char>) -> Option<(int, Seq<char>)> {
    let t = trim_start(s);
    if t.len() > 0 && (t[0] == '-' || t[0] == '+') {
        let u = t.drop_first();
        let n = digit_run(u, u.len());
        if n == 0 {
            None
        } else {
            let v = digits_value(u.take(n as int));
            Some((if t[0] == '-' { -v } else { v }, u.skip(n as int)))
        }
    } else {
        read_number(t, 4)
    }
}

/// What follows a leading `-` of `s`.
pub open spec fn after_dash(s: Seq<char>) -> Option<Seq<char>> {
    if s.len() > 0 && s[0] == '-' {
        Some(s.drop_first())
    } else {
        None
    }
}

/// The year, month and day that `s` spells in the format `%Y-%m-%d`, read
/// as `chrono` reads it, with nothing left over.
pub open spec fn read_ymd(s: Seq<char>) -> Option<(int, int, int)> {
    match read_year(s) {
        None => None,
        Some((y, r1)) => match after_dash(r1) {
            None => None,
            Some(r2) => match read_number(r2, 2) {
                None => None,
                Some((m, r3)) => match after_dash(r3) {
                    None => None,
                    Some(r4) => match read_number(r4, 2) {
                        None => None,
                        Some((d, r5)) => if r5.len() == 0 {
                            Some((y, m, d))
                        } else {
                            None
                        },
                    },
                },
            },
        },
    }
}

/// Unix time of midnight UTC on the date `text` spells as `%Y-%m-%d`:
/// 86400 seconds for each day from 1970-01-01; `None` when `text` spells
/// no date of the calendar within the years a date may have.
pub open spec fn midnight_of(text: Seq<char>) -> Option<int> {
    match read_ymd(text) {
        Some((y, m, d)) => if valid_date(y, m, d) {
            Some(86400 * days_from_epoch(y, m, d))
        } else {
            None
        },
        None => None,
    }
}

/// Numbers read are kept exactly up to a million; beyond, only the fact
/// that they are that large is kept.
pub open spec fn capped(x: int) -> int {
    if x < 1_000_000 {
        x
    } else {
        1_000_000
    }
}

fn skip_spaces(v: &[char], i: usize) -> (j: usize)
    requires
        i <= v@.len(),
    ensures
        i <= j <= v@.len(),
        trim_start(v@.skip(i as int)) == v@.skip(j as int),
{
    let rest = &v[i..v.len()];
    assert(rest@ == v@.skip(i as int));
    let k = trim_start_index(rest);
    assert(rest@.skip(k as int) =~= v@.skip(i + k));
    i + k
}

fn scan_digits(v: &[char], i: usize, max: usize) -> (r: (usize, u64))
    requires
        i <= v@.len(),
    ensures
        r.0 == i + digit_run(v@.skip(i as int), max as nat),
        r.0 <= v@.len(),
        r.1 == capped(digits_value(v@.subrange(i as int, r.0 as int))),
{
    let n = v.len();
    let mut k = i;
    let mut val: u64 = 0;
    assert(v@.subrange(i as int, i as int) =~= Seq::<char>::empty());
    while k < n && k - i < max && v[k] >= '0' && v[k] <= '9'
        invariant
            i <= k <= n,
            n == v@.len(),
            k - i <= max,
            digit_run(v@.skip(i as int), max as nat) == (k - i) + digit_run(
                v@.skip(k as int),
                (max - (k - i)) as nat,
            ),
            val == capped(digits_value(v@.subrange(i as int, k as int))),
        decreases n - k,
    {
        proof {
            let s = v@.skip(k as int);
            assert(s.drop_first() =~= v@.skip(k + 1));
            assert(s[0] == v@[k as int]);
            let sub = v@.subrange(i as int, k + 1);
            assert(sub.drop_last() =~= v@.subrange(i as int, k as int));
            assert(sub.last() == v@[k as int]);
        }
        let dg = (v[k] as u32 - 48) as u64;
        if val < 1_000_000 {
            val = val * 10 + dg;
            if val > 1_000_000 {
                val = 1_000_000;
            }
        }
        k = k + 1;
    }
    proof {
        let s = v@.skip(k as int);
        if k < n && k - i < max {
            assert(s[0] == v@[k as int]);
        }
    }
    (k, val)
}

/// Reads a number of one to `max` digits after leading whitespace from
/// position `i`: its value (capped) and where it ends.
fn number_at(v: &[char], i: usize, max: usize) -> (r: Option<(u64, usize)>)
    requires
        i <= v@.len(),
    ensures
        match r {
            Some((val, e)) => read_number(v@.skip(i as int), max as nat) matches Some(p) && val
                == capped(p.0) && p.1 == v@.skip(e as int) && e <= v@.len(),
            None => read_number(v@.skip(i as int), max as nat) is None,
        },
{
    let j = skip_spaces(v, i);
    let (e, val) = scan_digits(v, j, max);
    proof {
        let t = v@.skip(j as int);
        assert(t.take(e - j) =~= v@.subrange(j as int, e as int));
        assert(t.skip(e - j) =~= v@.skip(e as int));
    }
    if e == j {
        None
    } else {
        Some((val, e))
    }
}

/// Reads a year as `%Y` from the start of `v`: the year and where it ends,
/// when it lies within the years a date may have.
fn year_at(v: &[char]) -> (r: Option<(i64, usize)>)
    ensures
        match r {
            Some((y, e)) => read_year(v@) == Some((y as int, v@.skip(e as int))) && min_year() <= y
                <= max_year() && e <= v@.len(),
            None => !(read_year(v@) matches Some(p) && min_year() <= p.0 <= max_year()),
        },
{
    let n = v.len();
    let j = skip_spaces(v, 0);
    assert(v@.skip(0) =~= v@);
    let ghost t = v@.skip(j as int);
    if j < n && (v[j] == '-' || v[j] == '+') {
        let (e, val) = scan_digits(v, j + 1, n - (j + 1));
        proof {
            assert(t.drop_first() =~= v@.skip(j + 1));
            assert(t.drop_first().take(e - (j + 1)) =~= v@.subrange(j + 1, e as int));
            assert(t.drop_first().skip(e - (j + 1)) =~= v@.skip(e as int));
        }
        if e == j + 1 {
            return None;
        }
        if v[j] == '-' {
            if val > 262_143 {
                return None;
            }
            Some((-(val as i64), e))
        } else {
            if val > 262_142 {
                return None;
            }
            Some((val as i64, e))
        }
    } else {
        match number_at(v, j, 4) {
            None => None,
            Some((val, e)) => {
                if val > 262_142 {
                    None
                } else {
                    Some((val as i64, e))
                }
            },
        }
    }
}

/// Reads the date `v` spells as `%Y-%m-%d`: its year, month and day when
/// it spells a date of the calendar within the years a date may have.
fn read_date(v: &[char]) -> (r: Option<(i64, u64, u64)>)
    ensures
        match r {
            Some((y, m, d)) => read_ymd(v@) == Some((y as int, m as int, d as int)) && valid_date(
                y as int,
                m as int,
                d as int,
            ),
            None => !(read_ymd(v@) matches Some(t) && valid_date(t.0, t.1, t.2)),
        },
{
    let n = v.len();
    let (year, after) = match year_at(v) {
        None => return None,
        Some(p) => p,
    };
    if !(after < n && v[after] == '-') {
        return None;
    }
    assert(v@.skip(after as int).drop_first() =~= v@.skip(after + 1));
    let (mval, em) = match number_at(v, after + 1, 2) {
        None => return None,
        Some(p) => p,
    };
    if !(em < n && v[em] == '-') {
        return None;
    }
    assert(v@.skip(em as int).drop_first() =~= v@.skip(em + 1));
    let (dval, ed) = match number_at(v, em + 1, 2) {
        None => return None,
        Some(p) => p,
    };
    if ed != n {
        return None;
    }
    assert(v@.skip(ed as int).len() == 0);
    if mval < 1 || mval > 12 || dval < 1 || dval > month_days_of(year, mval) {
        return None;
    }
    Some((year, mval, dval))
}

/// Unix time of midnight UTC on the date `text` spells as `%Y-%m-%d`, when
/// it spells a date of the calendar within the years a date may have.
pub fn midnight_seconds(v: &[char]) -> (r: Option<i64>)
    ensures
        match r {
            Some(t) => midnight_of(v@) == Some(t as int) && -10_000_000_000_000 < t
                < 10_000_000_000_000,
            None => midnight_of(v@) is None,
        },
{
    match read_date(v) {
        Some((y, m, d)) => {
            let days = day_count(y, m, d);
            Some(86400 * days)
        },
        None => None,
    }
}

// ---------------------------------------------------------------------------
// A written date reads back
// ---------------------------------------------------------------------------

proof fn lemma_digit_char(d: nat)
    requires
        d < 10,
    ensures
        is_digit(digit_char(d)),
        digit_char(d) as int - 48 == d,
        !is_ws(digit_char(d)),
{
}

/// All characters of `s` are digits.
pub open spec fn all_digits(s: Seq<char>) -> bool {
    forall|i: int| 0 <= i < s.len() ==> is_digit(#[trigger] s[i])
}

proof fn lemma_decimal(n: nat)
    ensures
        all_digits(decimal(n)),
        digits_value(decimal(n)) == n,
        decimal(n).len() >= 1,
        n < 10 ==> decimal(n).len() == 1,
        n < 100 ==> decimal(n).len() <= 2,
        n < 1000 ==> decimal(n).len() <= 3,
        n < 10000 ==> decimal(n).len() <= 4,
    decreases n,
{
    if n < 10 {
        lemma_digit_char(n);
        assert(decimal(n).drop_last() =~= Seq::<char>::empty());
        assert(decimal(n).last() == digit_char(n));
        assert(digits_value(decimal(n)) == digits_value(decimal(n).drop_last()) * 10 + (digit_char(n) as int - 48));
    } else {
        lemma_decimal(n / 10);
        lemma_digit_char(n % 10);
        lemma_fundamental_div_mod(n as int, 10);
        let s = decimal(n);
        assert(s.drop_last() =~= decimal(n / 10));
        assert(s.last() == digit_char(n % 10));
        assert(digits_value(s) == digits_value(decimal(n / 10)) * 10 + (digit_char(n % 10) as int - 48));
        assert(digits_value(s) == (n / 10) * 10 + n % 10);
        assert forall|i: int| 0 <= i < s.len() implies is_digit(#[trigger] s[i]) by {
            if i < s.len() - 1 {
                assert(s[i] == decimal(n / 10)[i]);
            }
        }
    }
}

proof fn lemma_zeros_value(k: nat, s: Seq<char>)
    ensures
        digits_value(zeros(k) + s) == digits_value(s),
        all_digits(zeros(k)),
    decreases s.len() + k,
{
    if s.len() > 0 {
        lemma_zeros_value(k, s.drop_last());
        assert((zeros(k) + s).drop_last() =~= zeros(k) + s.drop_last());
        assert((zeros(k) + s).last() == s.last());
    } else if k > 0 {
        lemma_zeros_value((k - 1) as nat, s);
        assert((zeros(k) + s).drop_last() =~= zeros((k - 1) as nat) + s);
        assert((zeros(k) + s).last() == '0');
    } else {
        assert(zeros(0) + s =~= Seq::<char>::empty());
    }
}

proof fn lemma_padded(n: nat, w: nat)
    ensures
        all_digits(padded(n, w)),
        digits_value(padded(n, w)) == n,
        padded(n, w).len() == if decimal(n).len() < w {
            w
        } else {
            decimal(n).len()
        },
        padded(n, w).len() >= 1,
        n < 100 && w == 2 ==> padded(n, w).len() == 2,
        n < 10000 && w == 4 ==> padded(n, w).len() == 4,
{
    lemma_decimal(n);
    if decimal(n).len() < w {
        let z = zeros((w - decimal(n).len()) as nat);
        lemma_zeros_value((w - decimal(n).len()) as nat, decimal(n));
        assert forall|i: int| 0 <= i < padded(n, w).len() implies is_digit(#[trigger] padded(n, w)[i]) by {
            if i < z.len() {
                assert(padded(n, w)[i] == z[i]);
            } else {
                assert(padded(n, w)[i] == decimal(n)[i - z.len()]);
            }
        }
    }
}

proof fn lemma_digit_run_exact(s: Seq<char>, k: nat, max: nat)
    requires
        k <= s.len(),
        k <= max,
        forall|i: int| 0 <= i < k ==> is_digit(#[trigger] s[i]),
        k == s.len() || k == max || !is_digit(s[k as int]),
    ensures
        digit_run(s, max) == k,
    decreases k,
{
    if k > 0 {
        assert forall|i: int| 0 <= i < k - 1 implies is_digit(#[trigger] s.drop_first()[i]) by {
            assert(s.drop_first()[i] == s[i + 1]);
        }
        if k < s.len() {
            assert(s.drop_first()[k - 1] == s[k as int]);
        }
        lemma_digit_run_exact(s.drop_first(), (k - 1) as nat, (max - 1) as nat);
    }
}

proof fn lemma_trim_start_keeps(s: Seq<char>)
    requires
        s.len() > 0,
        !is_ws(s[0]),
    ensures
        trim_start(s) == s,
{
}

/// A number written with `w` digits and followed by `rest` (which does not
/// start with a digit) reads back, with `rest` left over.
proof fn lemma_read_padded(n: nat, w: nat, rest: Seq<char>, max: nat)
    requires
        padded(n, w).len() == max,
        rest.len() == 0 || !is_digit(rest[0]),
    ensures
        read_number(padded(n, w) + rest, max) == Some((n as int, rest)),
{
    lemma_padded(n, w);
    let p = padded(n, w);
    let s = p + rest;
    assert(s[0] == p[0]);
    assert(is_digit(p[0]));
    lemma_trim_start_keeps(s);
    assert forall|i: int| 0 <= i < p.len() implies is_digit(#[trigger] s[i]) by {
        assert(s[i] == p[i]);
    }
    lemma_digit_run_exact(s, p.len(), max);
    assert(s.take(p.len() as int) =~= p);
    assert(s.skip(p.len() as int) =~= rest);
}

/// Every date within the years a date may have, written `%Y-%m-%d`, reads
/// back as itself.
pub proof fn lemma_date_text_reads_back(y: int, m: int, d: int)
    requires
        valid_date(y, m, d),
    ensures
        read_ymd(date_text(y, m, d)) == Some((y, m, d)),
{
    let mp = padded(m as nat, 2);
    let dp = padded(d as nat, 2);
    let tail = seq!['-'] + mp + seq!['-'] + dp;
    let yt = year_text(y);
    let s = date_text(y, m, d);
    assert(s =~= yt + tail);
    lemma_padded(m as nat, 2);
    lemma_padded(d as nat, 2);
    // the year
    if 0 <= y <= 9999 {
        lemma_padded(y as nat, 4);
        assert(s[0] == yt[0]);
        assert(is_digit(yt[0]));
        lemma_trim_start_keeps(s);
        lemma_read_padded(y as nat, 4, tail, 4);
        assert(read_year(s) == Some((y, tail)));
    } else {
        let a: nat = if y < 0 {
            (-y) as nat
        } else {
            y as nat
        };
        let p = padded(a, 4);
        lemma_padded(a, 4);
        assert(yt =~= seq![if y < 0 { '-' } else { '+' }] + p);
        assert(s[0] == yt[0]);
        lemma_trim_start_keeps(s);
        let u = s.drop_first();
        assert(u =~= p + tail);
        assert forall|i: int| 0 <= i < p.len() implies is_digit(#[trigger] u[i]) by {
            assert(u[i] == p[i]);
        }
        assert(u[p.len() as int] == '-');
        lemma_digit_run_exact(u, p.len(), u.len());
        assert(u.take(p.len() as int) =~= p);
        assert(u.skip(p.len() as int) =~= tail);
        assert(read_year(s) == Some((y, tail)));
    }
    // the month and the day
    let r2 = mp + (seq!['-'] + dp);
    assert(tail.drop_first() =~= r2);
    lemma_read_padded(m as nat, 2, seq!['-'] + dp, 2);
    let r4 = dp + Seq::<char>::empty();
    assert((seq!['-'] + dp).drop_first() =~= r4);
    lemma_read_padded(d as nat, 2, Seq::<char>::empty(), 2);
}

/// Midnight of every date, written `%Y-%m-%d`, is 86400 seconds for each
/// day from 1970-01-01.
pub proof fn lemma_midnight_of_date_text(y: int, m: int, d: int)
    requires
        valid_date(y, m, d),
    ensures
        midnight_of(date_text(y, m, d)) == Some(86400 * days_from_epoch(y, m, d)),
{
    lemma_date_text_reads_back(y, m, d);
}

/// The text of `86400 * days_from_epoch(y, m, d) + 3600 * h + 60 * mi + s`
/// is the date and that time of day.
pub proof fn lemma_utc_text_of_date_time(y: int, m: int, d: int, h: int, mi: int, s: int)
    requires
        valid_date(y, m, d),
        0 <= h < 24,
        0 <= mi < 60,
        0 <= s < 60,
    ensures
        utc_text_of(86400 * days_from_epoch(y, m, d) + 3600 * h + 60 * mi + s) == Some(
            date_text(y, m, d) + seq!['T'] + clock_text(h, mi, s) + seq!['Z'],
        ),
{
    let day = days_from_epoch(y, m, d);
    let rem = 3600 * h + 60 * mi + s;
    let secs = 86400 * day + rem;
    assert(secs == day * 86400 + rem);
    lemma_fundamental_div_mod_converse_div(secs, 86400, day, rem);
    lemma_fundamental_div_mod_converse_mod(secs, 86400, day, rem);
    assert(rem == h * 3600 + (60 * mi + s));
    lemma_fundamental_div_mod_converse_div(rem, 3600, h, 60 * mi + s);
    lemma_fundamental_div_mod_converse_mod(rem, 3600, h, 60 * mi + s);
    assert(60 * mi + s == mi * 60 + s);
    lemma_fundamental_div_mod_converse_div(60 * mi + s, 60, mi, s);
    lemma_fundamental_div_mod_converse_mod(60 * mi + s, 60, mi, s);
    assert(rem % 60 == s) by {
        assert(rem == (60 * h + mi) * 60 + s);
        lemma_fundamental_div_mod_converse_mod(rem, 60, 60 * h + mi, s);
    }
    assert(valid_date(y, m, d) && days_from_epoch(y, m, d) == secs / 86400);
    let (cy, cm, cd) = choose|y1: int, m1: int, d1: int|
        valid_date(y1, m1, d1) && #[trigger] days_from_epoch(y1, m1, d1) == secs / 86400;
    lemma_day_count_unique(y, m, d, cy, cm, cd);
}

/// A time of day is written as two digits for each of hours, minutes and
/// seconds, with `:` between.
pub proof fn lemma_clock_text(h: int, mi: int, s: int)
    requires
        0 <= h < 24,
        0 <= mi < 60,
        0 <= s < 60,
    ensures
        clock_text(h, mi, s).len() == 8,
        clock_text(h, mi, s)[2] == ':' && clock_text(h, mi, s)[5] == ':',
        clock_text(h, mi, s).subrange(0, 2) == padded(h as nat, 2),
        clock_text(h, mi, s).subrange(3, 5) == padded(mi as nat, 2),
        clock_text(h, mi, s).subrange(6, 8) == padded(s as nat, 2),
        all_digits(padded(h as nat, 2)) && digits_value(padded(h as nat, 2)) == h,
        all_digits(padded(mi as nat, 2)) && digits_value(padded(mi as nat, 2)) == mi,
        all_digits(padded(s as nat, 2)) && digits_value(padded(s as nat, 2)) == s,
{
    lemma_padded(h as nat, 2);
    lemma_padded(mi as nat, 2);
    lemma_padded(s as nat, 2);
    let c = clock_text(h, mi, s);
    assert(c.subrange(0, 2) =~= padded(h as nat, 2));
    assert(c.subrange(3, 5) =~= padded(mi as nat, 2));
    assert(c.subrange(6, 8) =~= padded(s as nat, 2));
}

/// A written date has at least ten characters.
pub proof fn lemma_date_text_len(y: int, m: int, d: int)
    requires
        valid_date(y, m, d),
    ensures
        date_text(y, m, d).len() >= 10,
{
    lemma_padded(m as nat, 2);
    lemma_padded(d as nat, 2);
    if 0 <= y <= 9999 {
        lemma_padded(y as nat, 4);
    } else if y < 0 {
        lemma_padded((-y) as nat, 4);
    } else {
        lemma_padded(y as nat, 4);
    }
}

} // verus!
