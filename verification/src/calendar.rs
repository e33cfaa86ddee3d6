//! Proleptic Gregorian calendar arithmetic: leap years, month lengths,
//! year lengths, and cumulative day counts within a year.

use vstd::prelude::*;

verus! {

/// A year is a leap year iff it is divisible by 4 and either not divisible
/// by 100 or divisible by 400 (proleptic Gregorian rule, any integer year).
pub open spec fn spec_is_leap_year(year: int) -> bool {
    year % 4 == 0 && (year % 100 != 0 || year % 400 == 0)
}

/// Number of days in the given month (1 through 12) of the given year.
pub open spec fn spec_month_length(year: int, month: int) -> int {
    if month == 2 {
        if spec_is_leap_year(year) {
            29
        } else {
            28
        }
    } else if month == 4 || month == 6 || month == 9 || month == 11 {
        30
    } else {
        31
    }
}

/// Number of days in the given year: 366 if leap, else 365.
pub open spec fn spec_year_length(year: int) -> int {
    if spec_is_leap_year(year) {
        366
    } else {
        365
    }
}

/// Total days in months 1 through `month - 1` of `year`; equivalently the
/// zero-based ordinal of the first day of `month` within its year.
pub open spec fn spec_days_before_month(year: int, month: int) -> int
    decreases month,
{
    if month <= 1 {
        0
    } else {
        spec_days_before_month(year, month - 1) + spec_month_length(year, month - 1)
    }
}

pub fn is_leap_year(year: i32) -> (r: bool)
    ensures
        r == spec_is_leap_year(year as int),
{
    let y: i64 = year as i64;
    let a: i64 = if y < 0 {
        -y
    } else {
        y
    };
    proof {
        lemma_neg_divisibility(y as int, 4);
        lemma_neg_divisibility(y as int, 100);
        lemma_neg_divisibility(y as int, 400);
    }
    a % 4 == 0 && (a % 100 != 0 || a % 400 == 0)
}

/// Divisibility is unaffected by negation.
proof fn lemma_neg_divisibility(y: int, d: int)
    requires
        d > 0,
    ensures
        ((-y) % d == 0) <==> (y % d == 0),
{
    if y % d == 0 {
        vstd::arithmetic::div_mod::lemma_fundamental_div_mod(y, d);
        let q = y / d;
        assert(-y == (-q) * d) by (nonlinear_arith)
            requires
                y == d * q + 0,
        ;
        vstd::arithmetic::div_mod::lemma_mod_multiples_basic(-q, d);
    }
    if (-y) % d == 0 {
        vstd::arithmetic::div_mod::lemma_fundamental_div_mod(-y, d);
        let q = (-y) / d;
        assert(y == (-q) * d) by (nonlinear_arith)
            requires
                -y == d * q + 0,
        ;
        vstd::arithmetic::div_mod::lemma_mod_multiples_basic(-q, d);
    }
}

pub fn month_length(year: i32, month: u32) -> (r: u32)
    requires
        1 <= month <= 12,
    ensures
        r == spec_month_length(year as int, month as int),
        28 <= r <= 31,
{
    if (month % 2 == 1 && month <= 7) || (month % 2 == 0 && month > 7) {
        31
    } else if month == 2 {
        if is_leap_year(year) {
            29
        } else {
            28
        }
    } else {
        30
    }
}

pub fn year_length(year: i32) -> (r: u32)
    ensures
        r == spec_year_length(year as int),
{
    if is_leap_year(year) {
        366
    } else {
        365
    }
}

/// Every month of every year is 28 to 31 days long.
pub proof fn lemma_month_length_range(year: int, month: int)
    requires
        1 <= month <= 12,
    ensures
        28 <= spec_month_length(year, month) <= 31,
{
}

/// The month lengths of a year sum to that year's length.
pub proof fn lemma_month_lengths_sum_to_year_length(year: int)
    ensures
        spec_days_before_month(year, 13) == spec_year_length(year),
{
    reveal_with_fuel(spec_days_before_month, 14);
}

/// A day within a month lands strictly inside the year: its zero-based
/// ordinal is below the year's length.
pub proof fn lemma_ordinal_in_year(year: int, month: int, day: int)
    requires
        1 <= month <= 12,
        1 <= day <= spec_month_length(year, month),
    ensures
        0 <= spec_days_before_month(year, month) + (day - 1) < spec_year_length(year),
{
    lemma_month_lengths_sum_to_year_length(year);
    lemma_days_before_month_monotone(year, month + 1, 13);
    assert(spec_days_before_month(year, month) >= 0) by {
        lemma_days_before_month_nonneg(year, month);
    }
}

proof fn lemma_days_before_month_nonneg(year: int, month: int)
    ensures
        spec_days_before_month(year, month) >= 0,
    decreases month,
{
    if month > 1 {
        lemma_days_before_month_nonneg(year, month - 1);
    }
}

proof fn lemma_days_before_month_monotone(year: int, m1: int, m2: int)
    requires
        m1 <= m2,
    ensures
        spec_days_before_month(year, m1) <= spec_days_before_month(year, m2),
    decreases m2 - m1,
{
    if m1 < m2 {
        lemma_days_before_month_monotone(year, m1, m2 - 1);
    }
}

} // verus!
