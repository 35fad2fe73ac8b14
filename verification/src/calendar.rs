//! The proleptic Gregorian calendar: days since 1970-01-01 to a civil date, and the
//! `YYYY-MM-DD HH:mm:ss` UTC display string of a millisecond timestamp.
use vstd::prelude::*;
use crate::text::{pad_dec, pad_dec_chars, push_char, string_of};
use vstd::arithmetic::div_mod::{
    lemma_fundamental_div_mod, lemma_fundamental_div_mod_converse, lemma_mod_bound,
};

verus! {

pub open spec fn is_leap(y: int) -> bool {
    (y % 4 == 0 && y % 100 != 0) || y % 400 == 0
}

pub open spec fn year_len(y: int) -> int {
    if is_leap(y) {
        366
    } else {
        365
    }
}

pub open spec fn month_len(y: int, m: int) -> int {
    if m == 2 {
        if is_leap(y) {
            29
        } else {
            28
        }
    } else if m == 4 || m == 6 || m == 9 || m == 11 {
        30
    } else {
        31
    }
}

/// Days from 0000-01-01 to the first day of year `y` (for `y >= 0`).
pub open spec fn days_before_year(y: int) -> int {
    365 * y + (y + 3) / 4 - (y + 99) / 100 + (y + 399) / 400
}

/// Days from the first of January to the first of month `m` of year `y`.
pub open spec fn days_before_month(y: int, m: int) -> int
    decreases m,
{
    if m <= 1 {
        0
    } else {
        days_before_month(y, m - 1) + month_len(y, m - 1)
    }
}

/// Days from 0000-01-01 to 1970-01-01.
pub open spec fn epoch_offset() -> int {
    719528
}

/// Days since 1970-01-01 of the date `y-m-d`.
pub open spec fn days_of(y: int, m: int, d: int) -> int {
    days_before_year(y) + days_before_month(y, m) + d - 1 - epoch_offset()
}

/// Walking whole years from `y`: the year that day `rem` (counted from the start of `y`) falls in.
pub open spec fn year_walk(y: int, rem: int) -> (int, int)
    decreases rem,
{
    if rem < year_len(y) || rem < 0 {
        (y, rem)
    } else {
        year_walk(y + 1, rem - year_len(y))
    }
}

/// Walking whole months from `m`: the month that day `rem` of the year falls in.
pub open spec fn month_walk(y: int, m: int, rem: int) -> (int, int)
    decreases 12 - m,
{
    if m >= 12 || rem < month_len(y, m) {
        (m, rem)
    } else {
        month_walk(y, m + 1, rem - month_len(y, m))
    }
}

/// The civil date `(year, month, day)` of day `z`, counted from 1970-01-01: whole 400-year
/// cycles of 146097 days from 0000-01-01 (the calendar repeats with them), then whole years
/// and months within the cycle (whose month lengths are those of the cycle's year `yo`, as
/// `lemma_leap_shift` shows).
pub open spec fn civil(z: int) -> (int, int, int) {
    let n = z + epoch_offset();
    let (yo, r) = year_walk(0, n % 146097);
    let (m, r2) = month_walk(yo, 1, r);
    (400 * (n / 146097) + yo, m, r2 + 1)
}

pub proof fn lemma_year_step(y: int)
    requires
        y >= 0,
    ensures
        days_before_year(y + 1) == days_before_year(y) + year_len(y),
{
}

pub proof fn lemma_cycles(c: int)
    requires
        c >= 0,
    ensures
        days_before_year(400 * c) == 146097 * c,
{
}

pub proof fn lemma_year_dby_mono(a: int, b: int)
    requires
        0 <= a <= b,
    ensures
        days_before_year(a) <= days_before_year(b),
    decreases b - a,
{
    if a < b {
        lemma_year_step(a);
        lemma_year_dby_mono(a + 1, b);
    }
}

pub proof fn lemma_month_sum(y: int)
    ensures
        days_before_month(y, 13) == year_len(y),
{
    reveal_with_fuel(days_before_month, 13);
}

pub proof fn lemma_month_walk(y: int, m: int, rem: int)
    requires
        1 <= m <= 12,
        0 <= rem,
        days_before_month(y, m) + rem < year_len(y),
    ensures
        ({
            let (mm, r) = month_walk(y, m, rem);
            &&& 1 <= mm <= 12
            &&& 0 <= r < month_len(y, mm)
            &&& days_before_month(y, mm) + r == days_before_month(y, m) + rem
        }),
    decreases 12 - m,
{
    lemma_month_sum(y);
    if m < 12 && rem >= month_len(y, m) {
        lemma_month_walk(y, m + 1, rem - month_len(y, m));
    } else if m == 12 {
        assert(days_before_month(y, 13) == days_before_month(y, 12) + month_len(y, 12));
    }
}

fn is_leap_exec(y: u64) -> (b: bool)
    ensures
        b == is_leap(y as int),
{
    (y % 4 == 0 && y % 100 != 0) || y % 400 == 0
}

fn year_len_exec(y: u64) -> (n: u64)
    ensures
        n == year_len(y as int),
{
    if is_leap_exec(y) {
        366
    } else {
        365
    }
}

fn month_len_exec(y: u64, m: u64) -> (n: u64)
    ensures
        n == month_len(y as int, m as int),
{
    if m == 2 {
        if is_leap_exec(y) {
            29
        } else {
            28
        }
    } else if m == 4 || m == 6 || m == 9 || m == 11 {
        30
    } else {
        31
    }
}

/// Largest day count (from 0000-01-01) whose year still fits in an `i32`.
pub open spec fn max_day_number() -> int {
    784352296305
}

/// Adding `k` whole divisors moves the quotient by `k` and keeps the remainder.
proof fn lemma_div_shift(x: int, d: int, k: int)
    requires
        d > 0,
    ensures
        (x + k * d) / d == x / d + k,
        (x + k * d) % d == x % d,
{
    lemma_fundamental_div_mod(x, d);
    lemma_mod_bound(x, d);
    let q = x / d;
    let r = x % d;
    assert(x + k * d == (q + k) * d + r) by (nonlinear_arith)
        requires
            x == d * q + r,
    ;
    lemma_fundamental_div_mod_converse(x + k * d, d, q + k, r);
}

/// Leap years repeat every 400 years.
pub proof fn lemma_leap_shift(c: int, y: int)
    ensures
        is_leap(400 * c + y) == is_leap(y),
        year_len(400 * c + y) == year_len(y),
{
    lemma_div_shift(y, 4, 100 * c);
    lemma_div_shift(y, 100, 4 * c);
    lemma_div_shift(y, 400, c);
    assert(y + 100 * c * 4 == 400 * c + y && y + 4 * c * 100 == 400 * c + y && y + c * 400
        == 400 * c + y) by (nonlinear_arith);
}

/// Month starts repeat every 400 years.
pub proof fn lemma_dbm_shift(c: int, y: int, m: int)
    ensures
        days_before_month(400 * c + y, m) == days_before_month(y, m),
        month_len(400 * c + y, m) == month_len(y, m),
    decreases m,
{
    lemma_leap_shift(c, y);
    if m > 1 {
        lemma_dbm_shift(c, y, m - 1);
    }
}

/// 400 years more are 146097 days more.
pub proof fn lemma_dby_shift(c: int, y: int)
    ensures
        days_before_year(400 * c + y) == 146097 * c + days_before_year(y),
{
    lemma_div_shift(y + 3, 4, 100 * c);
    lemma_div_shift(y + 99, 100, 4 * c);
    lemma_div_shift(y + 399, 400, c);
    assert(y + 3 + 100 * c * 4 == 400 * c + y + 3 && y + 99 + 4 * c * 100 == 400 * c + y + 99
        && y + 399 + c * 400 == 400 * c + y + 399 && 365 * (400 * c + y) == 146000 * c + 365
        * y) by (nonlinear_arith);
}

/// A whole number of 400-year cycles shifted so that day numbers from `i64::MIN` on become
/// non-negative.
const CYCLE_SHIFT: i128 = 63131837319417;

/// The civil date of day `z` counted from 1970-01-01 (UTC); the year is truncated to 32 bits.
pub fn civil_from_days(z: i64) -> (r: (i32, u32, u32))
    requires
        z + 719468 <= i64::MAX,
    ensures
        r.0 == civil(z as int).0 as i32,
        r.1 as int == civil(z as int).1,
        r.2 as int == civil(z as int).2,
        1 <= r.1 <= 12,
        1 <= r.2 <= month_len(civil(z as int).0, r.1 as int),
        days_of(civil(z as int).0, r.1 as int, r.2 as int) == z,
        0 <= z + epoch_offset() < max_day_number() ==> 0 <= civil(z as int).0 <= i32::MAX,
{
    let n: i128 = z as i128 + 719528;
    let shifted: i128 = n + CYCLE_SHIFT * 146097;
    let su: u128 = shifted as u128;
    let cycles: i128 = (su / 146097) as i128 - CYCLE_SHIFT;
    let rem0: u64 = (su % 146097) as u64;
    proof {
        lemma_div_shift(n as int, 146097, CYCLE_SHIFT as int);
        lemma_cycles(1);
    }
    assert(cycles == n / 146097 && rem0 == n % 146097);
    let mut yo: u64 = 0;
    let mut rem: u64 = rem0;
    while rem >= year_len_exec(yo)
        invariant
            rem0 < 146097,
            days_before_year(400) == 146097,
            yo <= 400,
            rem as int + days_before_year(yo as int) == rem0,
            year_walk(yo as int, rem as int) == year_walk(0, rem0 as int),
        decreases rem,
    {
        proof {
            lemma_year_step(yo as int);
            if yo + 1 > 400 {
                lemma_year_dby_mono(400, yo as int + 1);
            }
        }
        rem = rem - year_len_exec(yo);
        yo = yo + 1;
    }
    let mut m: u64 = 1;
    proof {
        lemma_month_walk(yo as int, 1, rem as int);
    }
    let ghost target = month_walk(yo as int, 1, rem as int);
    while m < 12 && rem >= month_len_exec(yo, m)
        invariant
            1 <= m <= 12,
            rem < year_len(yo as int),
            month_walk(yo as int, m as int, rem as int) == target,
            days_before_month(yo as int, m as int) + rem < year_len(yo as int),
        decreases 12 - m,
    {
        proof {
            lemma_month_sum(yo as int);
        }
        rem = rem - month_len_exec(yo, m);
        m = m + 1;
    }
    proof {
        lemma_month_walk(yo as int, m as int, rem as int);
        lemma_dby_shift(cycles as int, yo as int);
        lemma_dbm_shift(cycles as int, yo as int, m as int);
        if 0 <= z + epoch_offset() < max_day_number() {
            lemma_fundamental_div_mod(n as int, 146097);
            assert(cycles >= 0);
            lemma_year_dby_mono(0, yo as int);
            lemma_cycles(cycles as int);
            assert(days_before_year(400 * cycles + yo) <= n);
            if 400 * cycles + yo > 2147483647 {
                lemma_year_dby_mono(2147483648, 400 * cycles + yo);
            }
        }
    }
    let y: i128 = 400 * cycles + yo as i128;
    (y as i32, m as u32, (rem + 1) as u32)
}

/// The `YYYY-MM-DD HH:mm:ss` UTC display string of `ms` milliseconds since the epoch.
pub open spec fn refresh_stamp(ms: nat) -> Seq<char> {
    let secs = ms / 1000;
    let days = secs / 86400;
    let tod = secs % 86400;
    let date = civil(days as int);
    pad_dec(date.0 as nat, 4) + seq!['-'] + pad_dec(date.1 as nat, 2) + seq!['-'] + pad_dec(
        date.2 as nat,
        2,
    ) + seq![' '] + pad_dec(tod / 3600, 2) + seq![':'] + pad_dec((tod % 3600) / 60, 2)
        + seq![':'] + pad_dec(tod % 60, 2)
}

spec fn out_parts_ok(ms: nat, y: nat, m: nat, d: nat) -> bool {
    let days = ms / 1000 / 86400;
    civil(days as int) == (y as int, m as int, d as int)
}

fn push_all(s: &mut String, v: &Vec<char>)
    ensures
        final(s)@ == old(s)@ + v@,
{
    let mut i: usize = 0;
    while i < v.len()
        invariant
            i <= v.len(),
            s@ == old(s)@ + v@.take(i as int),
        decreases v.len() - i,
    {
        push_char(s, v[i]);
        i = i + 1;
        assert(s@ =~= old(s)@ + v@.take(i as int));
    }
    assert(v@.take(v.len() as int) =~= v@);
}

/// UTC wall time `YYYY-MM-DD HH:mm:ss` of a millisecond timestamp.
pub fn format_last_refresh(ms: u64) -> (out: String)
    ensures
        out@ == refresh_stamp(ms as nat),
{
    let secs: u64 = ms / 1000;
    let days: u64 = secs / 86400;
    let tod: u64 = secs % 86400;
    let (y, m, d) = civil_from_days(days as i64);
    assert(out_parts_ok(ms as nat, y as nat, m as nat, d as nat));
    let mut out = string_of(pad_dec_chars(y as u64, 4).as_slice());
    push_char(&mut out, '-');
    push_all(&mut out, &pad_dec_chars(m as u64, 2));
    push_char(&mut out, '-');
    push_all(&mut out, &pad_dec_chars(d as u64, 2));
    push_char(&mut out, ' ');
    push_all(&mut out, &pad_dec_chars(tod / 3600, 2));
    push_char(&mut out, ':');
    push_all(&mut out, &pad_dec_chars((tod % 3600) / 60, 2));
    push_char(&mut out, ':');
    push_all(&mut out, &pad_dec_chars(tod % 60, 2));
    out
}

} // verus!
