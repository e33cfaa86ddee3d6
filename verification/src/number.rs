//! Decimal digit strings: the canonical decimal form of an integer, and
//! what a string of digits reads back as.

use vstd::prelude::*;

verus! {

/// The decimal digit character for a value 0 through 9.
pub open spec fn spec_digit_char(d: int) -> char {
    if d == 0 {
        '0'
    } else if d == 1 {
        '1'
    } else if d == 2 {
        '2'
    } else if d == 3 {
        '3'
    } else if d == 4 {
        '4'
    } else if d == 5 {
        '5'
    } else if d == 6 {
        '6'
    } else if d == 7 {
        '7'
    } else if d == 8 {
        '8'
    } else {
        '9'
    }
}

pub open spec fn spec_is_digit(c: char) -> bool {
    c == '0' || c == '1' || c == '2' || c == '3' || c == '4' || c == '5' || c == '6' || c == '7'
        || c == '8' || c == '9'
}

/// The value of one digit character.
pub open spec fn spec_digit_val(c: char) -> int {
    if c == '0' {
        0
    } else if c == '1' {
        1
    } else if c == '2' {
        2
    } else if c == '3' {
        3
    } else if c == '4' {
        4
    } else if c == '5' {
        5
    } else if c == '6' {
        6
    } else if c == '7' {
        7
    } else if c == '8' {
        8
    } else {
        9
    }
}

/// The canonical decimal digits of `n`, most significant first, without
/// leading zeros (a single '0' for zero).
pub open spec fn spec_decimal_digits(n: nat) -> Seq<char>
    decreases n,
{
    if n < 10 {
        seq![spec_digit_char(n as int)]
    } else {
        spec_decimal_digits(n / 10) + seq![spec_digit_char((n % 10) as int)]
    }
}

/// The decimal form of a signed value: a '-' before the digits of the
/// magnitude when negative.
pub open spec fn spec_decimal_signed(n: int) -> Seq<char> {
    if n < 0 {
        seq!['-'] + spec_decimal_digits((-n) as nat)
    } else {
        spec_decimal_digits(n as nat)
    }
}

/// What a string of digit characters reads back as, base ten, most
/// significant first.
pub open spec fn spec_digits_value(s: Seq<char>) -> int
    decreases s.len(),
{
    if s.len() == 0 {
        0
    } else {
        spec_digits_value(s.drop_last()) * 10 + spec_digit_val(s.last())
    }
}

/// Relies on std's Display for u64: the canonical decimal digits, most
/// significant first, no sign and no leading zeros.
#[verifier::external_body]
pub(crate) fn u64_to_decimal(n: u64) -> (r: String)
    ensures
        r@ == spec_decimal_digits(n as nat),
{
    format!("{}", n)
}

pub fn i64_to_decimal(n: i64) -> (r: String)
    ensures
        r@ == spec_decimal_signed(n as int),
{
    if n >= 0 {
        u64_to_decimal(n as u64)
    } else {
        let wide: i128 = -(n as i128);
        let mag: u64 = wide as u64;
        proof {
            assert(0 < wide < 0x1_0000_0000_0000_0000i128);
            assert(mag == -(n as int));
        }
        let mut r = String::from_str("-");
        let digits = u64_to_decimal(mag);
        r.append(digits.as_str());
        proof {
            reveal_strlit("-");
            assert(r@ =~= spec_decimal_signed(n as int));
        }
        r
    }
}

/// Every character of a canonical decimal form is a digit.
pub proof fn lemma_decimal_digits_are_digits(n: nat)
    ensures
        forall|i: int|
            0 <= i < spec_decimal_digits(n).len() ==> spec_is_digit(#[trigger] spec_decimal_digits(
                n,
            )[i]),
    decreases n,
{
    if n < 10 {
        assert(spec_decimal_digits(n)[0] == spec_digit_char(n as int));
    } else {
        lemma_decimal_digits_are_digits(n / 10);
        let s = spec_decimal_digits(n);
        let a = spec_decimal_digits(n / 10);
        assert forall|i: int| 0 <= i < s.len() implies spec_is_digit(s[i]) by {
            if i < a.len() {
                assert(s[i] == a[i]);
            } else {
                assert(s[i] == spec_digit_char((n % 10) as int));
            }
        }
    }
}

/// Ten to the `k`.
pub open spec fn spec_pow10(k: nat) -> nat
    decreases k,
{
    if k == 0 {
        1nat
    } else {
        10 * spec_pow10((k - 1) as nat)
    }
}

/// A value below ten to the `k` has at most `k` decimal digits (and at
/// least one).
pub proof fn lemma_decimal_digits_len(n: nat, k: nat)
    requires
        k >= 1,
        n < spec_pow10(k),
    ensures
        1 <= spec_decimal_digits(n).len() <= k,
    decreases n,
{
    if n < 10 {
    } else {
        assert(k >= 2) by {
            if k == 1 {
                assert(spec_pow10(1) == 10);
            }
        }
        assert(n / 10 < spec_pow10((k - 1) as nat)) by (nonlinear_arith)
            requires
                n < spec_pow10(k),
                spec_pow10(k) == 10 * spec_pow10((k - 1) as nat),
        ;
        lemma_decimal_digits_len(n / 10, (k - 1) as nat);
    }
}

/// The canonical decimal form of `n` reads back as `n`.
pub proof fn lemma_decimal_digits_value(n: nat)
    ensures
        spec_digits_value(spec_decimal_digits(n)) == n,
    decreases n,
{
    if n < 10 {
        let s = spec_decimal_digits(n);
        assert(s.drop_last() =~= Seq::<char>::empty());
        assert(spec_digits_value(Seq::<char>::empty()) == 0);
        assert(s.last() == spec_digit_char(n as int));
        assert(spec_digits_value(s) == 0 * 10 + spec_digit_val(spec_digit_char(n as int)));
    } else {
        lemma_decimal_digits_value(n / 10);
        let s = spec_decimal_digits(n);
        let a = spec_decimal_digits(n / 10);
        let c = spec_digit_char((n % 10) as int);
        assert(s == a + seq![c]);
        assert(s.drop_last() =~= a);
        assert(s.last() == c);
        assert(0 <= n % 10 < 10);
        assert(spec_digit_val(c) == n % 10);
        vstd::arithmetic::div_mod::lemma_fundamental_div_mod(n as int, 10);
        assert(spec_digits_value(s) == (n / 10) * 10 + n % 10);
    }
}

/// Leading zero characters do not change what digits read back as.
pub proof fn lemma_zero_prefix_value(z: nat, s: Seq<char>)
    ensures
        spec_digits_value(crate::text::spec_repeat('0', z) + s) == spec_digits_value(s),
    decreases s.len(),
{
    if s.len() == 0 {
        assert(crate::text::spec_repeat('0', z) + s =~= crate::text::spec_repeat('0', z));
        lemma_zeros_value(z);
    } else {
        lemma_zero_prefix_value(z, s.drop_last());
        let w = crate::text::spec_repeat('0', z) + s;
        assert(w.drop_last() =~= crate::text::spec_repeat('0', z) + s.drop_last());
        assert(w.last() == s.last());
    }
}

proof fn lemma_zeros_value(z: nat)
    ensures
        spec_digits_value(crate::text::spec_repeat('0', z)) == 0,
    decreases z,
{
    if z > 0 {
        lemma_zeros_value((z - 1) as nat);
        let w = crate::text::spec_repeat('0', z);
        assert(w.drop_last() =~= crate::text::spec_repeat('0', (z - 1) as nat));
        assert(w.last() == '0');
    }
}

} // verus!
