//! Elapsed fraction of a day, week, month or year, as a truncated
//! five-digit fixed-point decimal string such as "0.500 00".

use crate::calendar::{
    lemma_ordinal_in_year, month_length, spec_days_before_month, spec_month_length,
    spec_year_length, year_length,
};
use crate::number::{
    lemma_decimal_digits_are_digits, lemma_decimal_digits_len, lemma_decimal_digits_value,
    lemma_zero_prefix_value, spec_decimal_digits, spec_digits_value, spec_is_digit, spec_pow10,
    u64_to_decimal,
};
use crate::text::{pad, separate_from_left, spec_pad, spec_repeat, spec_separate_from_left};
use crate::timestamp::{day_of_week_of, Timestamp};
use vstd::prelude::*;

verus! {

/// Seconds in a day, week, and the longest year.
pub const SECS_PER_DAY: u64 = 86400;

pub const SECS_PER_WEEK: u64 = 604800;

pub const MAX_SECS_PER_YEAR: u64 = 31622400;

/// The fraction `elapsed / total`, truncated to five decimal digits, as
/// "0." followed by the five digits grouped in threes from the left with a
/// space: three digits, a space, two digits.
pub open spec fn spec_proportion(elapsed: int, total: int) -> Seq<char> {
    seq!['0', '.'] + spec_separate_from_left(
        spec_pad(spec_decimal_digits((elapsed * 100000 / total) as nat), 5, true, '0'),
        3,
        ' ',
    )
}

/// Scales `elapsed / total` to five fixed decimal digits, truncating, and
/// renders them grouped behind "0.".
pub fn proportion_string(elapsed: u64, total: u64) -> (r: String)
    requires
        elapsed < total <= MAX_SECS_PER_YEAR,
    ensures
        r@ == spec_proportion(elapsed as int, total as int),
{
    let p = (elapsed * 100000) / total;
    proof {
        assert(p < 100000) by (nonlinear_arith)
            requires
                p == (elapsed as int) * 100000 / (total as int),
                0 <= (elapsed as int) < (total as int),
        ;
        assert(spec_pow10(5) == 100000) by {
            reveal_with_fuel(spec_pow10, 6);
        }
        lemma_decimal_digits_len(p as nat, 5);
    }
    let d = u64_to_decimal(p);
    let padded = pad(d.as_str(), 5, true, '0');
    let grouped = separate_from_left(padded.as_str(), 3, ' ');
    let mut r = String::from_str("0.");
    r.append(grouped.as_str());
    proof {
        reveal_strlit("0.");
        assert(r@ =~= spec_proportion(elapsed as int, total as int));
    }
    r
}

/// Every proportion string is "0." followed by five decimal digits grouped
/// as three, a space, then two; the five digits read back as the scaled
/// quotient, which is below one hundred thousand, so the fraction shown
/// lies in [0, 1).
pub proof fn lemma_proportion_shape(elapsed: int, total: int)
    requires
        0 <= elapsed < total,
    ensures
        ({
            let p = elapsed * 100000 / total;
            let s = spec_proportion(elapsed, total);
            &&& 0 <= p < 100000
            &&& s.len() == 8
            &&& s[0] == '0'
            &&& s[1] == '.'
            &&& spec_is_digit(s[2]) && spec_is_digit(s[3]) && spec_is_digit(s[4])
            &&& s[5] == ' '
            &&& spec_is_digit(s[6]) && spec_is_digit(s[7])
            &&& spec_digits_value(seq![s[2], s[3], s[4], s[6], s[7]]) == p
        }),
{
    let p = elapsed * 100000 / total;
    assert(0 <= p < 100000) by (nonlinear_arith)
        requires
            0 <= elapsed < total,
            p == elapsed * 100000 / total,
    ;
    assert(spec_pow10(5) == 100000) by {
        reveal_with_fuel(spec_pow10, 6);
    }
    lemma_decimal_digits_len(p as nat, 5);
    lemma_decimal_digits_are_digits(p as nat);
    lemma_decimal_digits_value(p as nat);
    let dd = spec_decimal_digits(p as nat);
    let z = (5 - dd.len()) as nat;
    let padded = spec_pad(dd, 5, true, '0');
    assert(padded =~= spec_repeat('0', z) + dd);
    assert(padded.len() == 5);
    assert forall|i: int| 0 <= i < 5 implies spec_is_digit(padded[i]) by {
        if i < z {
            assert(padded[i] == '0');
        } else {
            assert(padded[i] == dd[i - z]);
        }
    }
    lemma_zero_prefix_value(z, dd);
    assert(spec_digits_value(padded) == p);
    let grouped = spec_separate_from_left(padded, 3, ' ');
    assert(spec_separate_from_left(padded.skip(3), 3, ' ') == padded.skip(3));
    assert(grouped == padded.take(3) + seq![' '] + padded.skip(3));
    let s = spec_proportion(elapsed, total);
    assert(s =~= seq!['0', '.'] + padded.take(3) + seq![' '] + padded.skip(3));
    assert(seq![s[2], s[3], s[4], s[6], s[7]] =~= padded);
}

/// The elapsed fraction of the timestamp's day.
pub fn proportion_day(t: &Timestamp) -> (r: String)
    requires
        t.wf(),
    ensures
        r@ == spec_proportion(t.spec_secs_from_midnight(), 86400),
{
    let s = t.secs_from_midnight();
    proportion_string(s as u64, SECS_PER_DAY)
}

/// The elapsed fraction of the timestamp's ISO week, Monday through Sunday.
pub fn proportion_week(t: &Timestamp) -> (r: String)
    requires
        t.wf(),
    ensures
        r@ == spec_proportion(
            t.spec_secs_from_midnight() + 86400 * day_of_week_of(
                t.year as int,
                t.month as int,
                t.day as int,
            ),
            604800,
        ),
{
    let dow = crate::timestamp::weekday_from_monday(t.year, t.month, t.day);
    let s = (t.secs_from_midnight() as u64) + 86400 * (dow as u64);
    proportion_string(s, SECS_PER_WEEK)
}

/// The elapsed fraction of the timestamp's month.
pub fn proportion_month(t: &Timestamp) -> (r: String)
    requires
        t.wf(),
    ensures
        r@ == spec_proportion(
            t.spec_secs_from_midnight() + 86400 * (t.day - 1),
            spec_month_length(t.year as int, t.month as int) * 86400,
        ),
{
    let ml = month_length(t.year, t.month);
    let s = (t.secs_from_midnight() as u64) + 86400 * ((t.day - 1) as u64);
    proportion_string(s, (ml as u64) * 86400)
}

/// The elapsed fraction of the timestamp's year.
pub fn proportion_year(t: &Timestamp) -> (r: String)
    requires
        t.wf(),
    ensures
        r@ == spec_proportion(
            t.spec_secs_from_midnight() + 86400 * (spec_days_before_month(
                t.year as int,
                t.month as int,
            ) + t.day - 1),
            spec_year_length(t.year as int) * 86400,
        ),
{
    let mut dbm: u32 = 0;
    let mut m: u32 = 1;
    while m < t.month
        invariant
            t.wf(),
            1 <= m <= t.month,
            dbm == spec_days_before_month(t.year as int, m as int),
            dbm <= 31 * (m - 1),
        decreases t.month - m,
    {
        dbm = dbm + month_length(t.year, m);
        m = m + 1;
    }
    proof {
        lemma_ordinal_in_year(t.year as int, t.month as int, t.day as int);
    }
    let yl = year_length(t.year);
    let s = (t.secs_from_midnight() as u64) + 86400 * ((dbm + t.day - 1) as u64);
    proportion_string(s, (yl as u64) * 86400)
}

} // verus!
