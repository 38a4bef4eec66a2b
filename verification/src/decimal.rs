//! Decimal digits of numbers, and what cutting a text of digits means for
//! the number.

use vstd::prelude::*;
use vstd::arithmetic::div_mod::{lemma_breakdown, lemma_div_denominator};

verus! {

/// 10 to the power `k`.
pub open spec fn pow10(k: nat) -> int
    decreases k,
{
    if k == 0 {
        1
    } else {
        10 * pow10((k - 1) as nat)
    }
}

/// The character of a decimal digit.
pub open spec fn digit_char(d: int) -> char {
    if d == 0 {
        '0'
    } else if d == 1 {
        '1'
    } else if d == 2 {
        '2'
    } else if d == 3 {
        '3'
    } else if d == 4 {
        '4'
    } else if d == 5 {
        '5'
    } else if d == 6 {
        '6'
    } else if d == 7 {
        '7'
    } else if d == 8 {
        '8'
    } else {
        '9'
    }
}

/// The decimal digits of a number that is not negative, most significant
/// first, without leading zeros; zero is `0`.
pub open spec fn decimal_digits(n: int) -> Seq<char>
    decreases n,
{
    if n < 10 {
        seq![digit_char(n)]
    } else {
        decimal_digits(n / 10).push(digit_char(n % 10))
    }
}

/// The last `k` decimal digits of a number that is not negative, most
/// significant first, with leading zeros where the number is short.
pub open spec fn padded_digits(n: int, k: nat) -> Seq<char>
    decreases k,
{
    if k == 0 {
        Seq::empty()
    } else {
        padded_digits(n / 10, (k - 1) as nat).push(digit_char(n % 10))
    }
}

/// `n` zeros.
pub open spec fn zeros(n: nat) -> Seq<char> {
    Seq::new(n, |i: int| '0')
}

/// Powers of ten are positive, and the ones that the amounts need are what
/// they are.
pub proof fn lemma_pow10(k: nat)
    ensures
        pow10(k) >= 1,
        pow10(6) == 1_000_000,
        pow10(12) == 1_000_000_000_000,
        pow10(18) == 1_000_000_000_000_000_000,
    decreases k,
{
    if k > 0 {
        lemma_pow10((k - 1) as nat);
    }
    reveal_with_fuel(pow10, 7);
    assert(pow10(6) == 1_000_000);
    assert(pow10(12) == 1_000_000 * pow10(6));
    assert(pow10(18) == 1_000_000 * pow10(12));
}

/// There are as many padded digits as asked for.
pub proof fn lemma_padded_len(n: int, k: nat)
    ensures
        padded_digits(n, k).len() == k,
    decreases k,
{
    if k > 0 {
        lemma_padded_len(n / 10, (k - 1) as nat);
    }
}

/// A number has a first digit.
pub proof fn lemma_decimal_digits_len(n: int)
    ensures
        decimal_digits(n).len() >= 1,
    decreases n,
{
    if n >= 10 {
        lemma_decimal_digits_len(n / 10);
    }
}

/// The padded digits of zero are zeros.
pub proof fn lemma_padded_zero(k: nat)
    ensures
        padded_digits(0, k) == zeros(k),
    decreases k,
{
    if k > 0 {
        lemma_padded_zero((k - 1) as nat);
        assert(zeros((k - 1) as nat).push('0') =~= zeros(k));
    }
}

/// The digits of a number of more than `k` digits are the digits of the
/// number without its last `k` digits, and then those `k`.
pub proof fn lemma_digits_split(n: int, k: nat)
    requires
        n >= pow10(k),
    ensures
        decimal_digits(n) == decimal_digits(n / pow10(k)) + padded_digits(n % pow10(k), k),
        decimal_digits(n).len() > k,
    decreases k,
{
    lemma_pow10(k);
    if k == 0 {
        assert(decimal_digits(n) + Seq::<char>::empty() =~= decimal_digits(n));
        lemma_decimal_digits_len(n);
    } else {
        let p = pow10((k - 1) as nat);
        lemma_pow10((k - 1) as nat);
        assert(n >= 10);
        assert(n / 10 >= p);
        lemma_digits_split(n / 10, (k - 1) as nat);
        lemma_div_denominator(n, 10, p);
        lemma_breakdown(n, 10, p);
        let m = n % (10 * p);
        assert(m == 10 * ((n / 10) % p) + n % 10);
        assert(m / 10 == (n / 10) % p);
        assert(m % 10 == n % 10);
        let whole = decimal_digits(n / (10 * p));
        let rest = padded_digits((n / 10) % p, (k - 1) as nat);
        assert((whole + rest).push(digit_char(n % 10)) =~= whole + rest.push(digit_char(n % 10)));
    }
}

/// The digits of a number of at most `k` digits, with zeros in front, are
/// its last `k` digits.
pub proof fn lemma_digits_pad(n: int, k: nat)
    requires
        0 <= n < pow10(k),
        k >= 1,
    ensures
        decimal_digits(n).len() <= k,
        zeros((k - decimal_digits(n).len()) as nat) + decimal_digits(n) == padded_digits(n, k),
    decreases k,
{
    if n < 10 {
        lemma_padded_zero((k - 1) as nat);
        assert(n / 10 == 0);
        assert(zeros((k - 1) as nat) + seq![digit_char(n)] =~= zeros((k - 1) as nat).push(
            digit_char(n % 10),
        ));
    } else {
        reveal_with_fuel(pow10, 2);
        assert(k >= 2);
        lemma_digits_pad(n / 10, (k - 1) as nat);
        let short = decimal_digits(n / 10);
        let front = zeros((k - 1 - short.len()) as nat);
        assert((front + short).push(digit_char(n % 10)) =~= front + short.push(
            digit_char(n % 10),
        ));
    }
}

/// The first `j` of the last `k` digits of a number are the last `j`
/// digits of the number without its last `k - j` digits.
pub proof fn lemma_padded_take(n: int, k: nat, j: nat)
    requires
        0 <= n,
        j <= k,
    ensures
        padded_digits(n, k).take(j as int) == padded_digits(n / pow10((k - j) as nat), j),
    decreases k,
{
    lemma_padded_len(n, k);
    if j == k {
        assert(padded_digits(n, k).take(k as int) =~= padded_digits(n, k));
    } else {
        let p = pow10((k - 1 - j) as nat);
        lemma_pow10((k - 1 - j) as nat);
        lemma_padded_len(n / 10, (k - 1) as nat);
        lemma_padded_take(n / 10, (k - 1) as nat, j);
        lemma_div_denominator(n, 10, p);
        assert(padded_digits(n, k).take(j as int) =~= padded_digits(n / 10, (k - 1) as nat).take(
            j as int,
        ));
    }
}

} // verus!
