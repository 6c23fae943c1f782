//! Natural numbers written out in a radix from 2 to 16.

use crate::text::{push_repeated, repeated};
use vstd::arithmetic::div_mod::{lemma_div_decreases, lemma_fundamental_div_mod, lemma_small_mod};
use vstd::arithmetic::power::{
    lemma_pow0, lemma_pow_increases, lemma_pow_positive, lemma_pow_strictly_increases_converse,
    pow,
};
use vstd::prelude::*;

verus! {

/// The character for one digit: `0` to `9`, then `a` to `f`.
pub open spec fn digit_char(d: nat) -> char {
    if d < 10 {
        ('0' as nat + d) as char
    } else {
        ('a' as nat + (d - 10)) as char
    }
}

/// `value` in the given radix, most significant digit first, without leading
/// zeros; zero is the single digit `0`.
pub open spec fn digits(value: nat, radix: nat) -> Seq<char>
    decreases value,
{
    if radix < 2 || value < radix {
        seq![digit_char(value)]
    } else {
        proof {
            lemma_div_decreases(value as int, radix as int);
        }
        digits(value / radix, radix).push(digit_char(value % radix))
    }
}

/// `value` in the given radix, with zeros in front of it where it has fewer
/// than `width` digits. A longer number is written in full.
pub open spec fn zero_padded(value: nat, radix: nat, width: nat) -> Seq<char> {
    let written = digits(value, radix);
    if written.len() >= width {
        written
    } else {
        repeated('0', (width - written.len()) as nat) + written
    }
}

/// Whether `k` is the logarithm of `n` to the given radix, rounded up: the least
/// exponent at which the power of the radix reaches `n`.
pub open spec fn is_ceil_log(radix: nat, n: nat, k: nat) -> bool {
    &&& pow(radix as int, k) >= n
    &&& k > 0 ==> pow(radix as int, (k - 1) as nat) < n
}

/// The logarithm of `n` to the given radix, rounded up. It is 0 for `n` of 0
/// or 1, where no power is needed to reach `n`.
pub open spec fn ceil_log(radix: nat, n: nat) -> nat {
    choose|k: nat| is_ceil_log(radix, n, k)
}

/// The character for the digit `d`.
pub fn digit(d: u8) -> (c: char)
    requires
        d < 16,
    ensures
        c == digit_char(d as nat),
{
    if d < 10 {
        ('0' as u8 + d) as char
    } else {
        ('a' as u8 + (d - 10)) as char
    }
}

/// A number below the `k`-th power of the radix has at most `k` digits.
pub proof fn lemma_digits_fit(value: nat, radix: nat, k: nat)
    requires
        radix >= 2,
        k >= 1,
        value < pow(radix as int, k),
    ensures
        digits(value, radix).len() <= k,
    decreases k,
{
    reveal(pow);
    if value >= radix {
        let rest = value / radix;
        lemma_fundamental_div_mod(value as int, radix as int);
        if k == 1 {
            lemma_pow0(radix as int);
            assert(pow(radix as int, 1) == radix * 1);
        } else {
            let below = pow(radix as int, (k - 1) as nat);
            assert(rest < below) by (nonlinear_arith)
                requires
                    value < radix * below,
                    value == radix * rest + value % radix,
                    value % radix >= 0,
                    radix >= 2,
            ;
            lemma_digits_fit(rest, radix, (k - 1) as nat);
        }
    }
}

/// A number that reaches the `k`-th power of the radix has more than `k`
/// digits.
pub proof fn lemma_digits_needed(value: nat, radix: nat, k: nat)
    requires
        radix >= 2,
        value >= pow(radix as int, k),
    ensures
        digits(value, radix).len() > k,
    decreases k,
{
    reveal(pow);
    if k > 0 {
        let below = pow(radix as int, (k - 1) as nat);
        let rest = value / radix;
        lemma_pow_positive(radix as int, (k - 1) as nat);
        lemma_fundamental_div_mod(value as int, radix as int);
        assert(rest >= below && value >= radix) by (nonlinear_arith)
            requires
                value >= radix * below,
                value == radix * rest + value % radix,
                value % radix < radix,
                below >= 1,
                radix >= 2,
        ;
        lemma_digits_needed(rest, radix, (k - 1) as nat);
    }
}

/// A larger number never has fewer digits.
pub proof fn lemma_digits_grow(small: nat, large: nat, radix: nat)
    requires
        radix >= 2,
        small <= large,
    ensures
        digits(small, radix).len() <= digits(large, radix).len(),
    decreases large,
{
    if small >= radix {
        lemma_div_decreases(large as int, radix as int);
        assert(small / radix <= large / radix) by (nonlinear_arith)
            requires
                small <= large,
                radix >= 2,
        ;
        lemma_digits_grow(small / radix, large / radix, radix);
    }
}

/// Every `u64` has at most 64 digits, whatever the radix.
pub proof fn lemma_digits_of_u64(value: u64, radix: nat)
    requires
        radix >= 2,
    ensures
        1 <= digits(value as nat, radix).len() <= 64,
{
    vstd::arithmetic::power2::lemma2_to64_rest();
    vstd::arithmetic::power2::lemma_pow2(64);
    lemma_pow_increases_in_base(2, radix, 64);
    lemma_digits_fit(value as nat, radix, 64);
}

/// A larger radix gives a larger power.
pub proof fn lemma_pow_increases_in_base(small: nat, large: nat, e: nat)
    requires
        small <= large,
    ensures
        0 <= pow(small as int, e) <= pow(large as int, e),
    decreases e,
{
    reveal(pow);
    if e > 0 {
        lemma_pow_increases_in_base(small, large, (e - 1) as nat);
        let a = pow(small as int, (e - 1) as nat);
        let b = pow(large as int, (e - 1) as nat);
        assert(0 <= small * a <= large * b) by (nonlinear_arith)
            requires
                0 <= a <= b,
                0 <= small <= large,
        ;
    }
}

/// For a radix of 2 or more every number has a rounded-up logarithm.
pub proof fn lemma_ceil_log_exists(radix: nat, n: nat)
    requires
        radix >= 2,
    ensures
        is_ceil_log(radix, n, ceil_log(radix, n)),
    decreases n,
{
    reveal(pow);
    if n <= 1 {
        assert(is_ceil_log(radix, n, 0));
    } else {
        let part = ((n + radix - 1) / radix as int) as nat;
        lemma_fundamental_div_mod((n + radix - 1) as int, radix as int);
        let rest = (n + radix - 1) % radix as int;
        assert(part < n && radix * part >= n && radix * (part - 1) < n) by (nonlinear_arith)
            requires
                n >= 2,
                radix >= 2,
                n + radix - 1 == radix * part + rest,
                0 <= rest < radix,
        ;
        lemma_ceil_log_exists(radix, part);
        let k = ceil_log(radix, part);
        let reach = pow(radix as int, k);
        assert(radix * reach >= n) by (nonlinear_arith)
            requires
                reach >= part,
                radix * part >= n,
                radix >= 2,
        ;
        if k > 0 {
            let below = pow(radix as int, (k - 1) as nat);
            assert(radix * below < n) by (nonlinear_arith)
                requires
                    below < part,
                    radix * (part - 1) < n,
                    radix >= 2,
            ;
        }
        assert(is_ceil_log(radix, n, k + 1));
    }
}

/// At most one exponent is the rounded-up logarithm, so an exponent that is
/// one is the value of `ceil_log`.
pub proof fn lemma_ceil_log_unique(radix: nat, n: nat, k: nat)
    requires
        radix >= 2,
        is_ceil_log(radix, n, k),
    ensures
        ceil_log(radix, n) == k,
{
    let other = ceil_log(radix, n);
    assert(is_ceil_log(radix, n, other));
    if other < k {
        lemma_pow_increases(radix, other, (k - 1) as nat);
    } else if k < other {
        lemma_pow_increases(radix, k, (other - 1) as nat);
    }
}

/// The rounded-up logarithm of `n` is at most `k` wherever the `k`-th power of
/// the radix reaches `n`.
pub proof fn lemma_ceil_log_at_most(radix: nat, n: nat, k: nat)
    requires
        radix >= 2,
        pow(radix as int, k) >= n,
    ensures
        ceil_log(radix, n) <= k,
{
    let least = ceil_log(radix, n);
    lemma_ceil_log_exists(radix, n);
    if least > k {
        lemma_pow_increases(radix, k, (least - 1) as nat);
    }
}

/// The rounded-up logarithm of a number above 1 is the number of digits of
/// the number before it: of the last address in a file of that size.
pub proof fn lemma_ceil_log_is_digits_of_last(radix: nat, n: nat)
    requires
        radix >= 2,
        n >= 2,
    ensures
        ceil_log(radix, n) == digits((n - 1) as nat, radix).len(),
{
    let k = ceil_log(radix, n);
    lemma_ceil_log_exists(radix, n);
    if k == 0 {
        lemma_pow0(radix as int);
    } else {
        lemma_digits_fit((n - 1) as nat, radix, k);
        lemma_digits_needed((n - 1) as nat, radix, (k - 1) as nat);
    }
}

/// Appends `value`, written in `radix` without leading zeros, to `out`.
pub fn push_digits(out: &mut String, value: u64, radix: u64)
    requires
        2 <= radix <= 16,
    ensures
        final(out)@ == old(out)@ + digits(value as nat, radix as nat),
    decreases value,
{
    if value >= radix {
        proof {
            lemma_div_decreases(value as int, radix as int);
        }
        push_digits(out, value / radix, radix);
    }
    proof {
        lemma_fundamental_div_mod(value as int, radix as int);
        if value < radix {
            lemma_small_mod(value as nat, radix as nat);
        }
    }
    out.push(digit((value % radix) as u8));
    assert(out@ =~= old(out)@ + digits(value as nat, radix as nat));
}

/// The number of digits that `value` has in `radix`.
pub fn count_digits(value: u64, radix: u64) -> (n: usize)
    requires
        2 <= radix <= 16,
    ensures
        n == digits(value as nat, radix as nat).len(),
        1 <= n <= 64,
{
    let mut rest = value;
    let mut n: usize = 1;
    proof {
        lemma_digits_of_u64(value, radix as nat);
    }
    while rest >= radix
        invariant
            2 <= radix <= 16,
            1 <= n,
            digits(value as nat, radix as nat).len() <= 64,
            digits(value as nat, radix as nat).len() == digits(rest as nat, radix as nat).len() + n
                - 1,
        decreases rest,
    {
        rest = rest / radix;
        n += 1;
    }
    n
}

/// Appends `value`, written in `radix` with zeros in front up to `width`
/// digits, to `out`.
pub fn push_zero_padded(out: &mut String, value: u64, radix: u64, width: usize)
    requires
        2 <= radix <= 16,
    ensures
        final(out)@ == old(out)@ + zero_padded(value as nat, radix as nat, width as nat),
{
    let written = count_digits(value, radix);
    if written < width {
        push_repeated(out, '0', width - written);
    }
    push_digits(out, value, radix);
}

/// The logarithm of `n` to the given radix, rounded up.
pub fn ceil_log_of(n: u64, radix: u64) -> (k: usize)
    requires
        radix >= 2,
    ensures
        is_ceil_log(radix as nat, n as nat, k as nat),
        k == ceil_log(radix as nat, n as nat),
        k <= 64,
{
    let mut k: usize = 0;
    let mut reach: u128 = 1;
    proof {
        lemma_pow0(radix as int);
    }
    while reach < n as u128
        invariant
            radix >= 2,
            k <= 64,
            reach >= 1,
            reach == pow(radix as int, k as nat),
            k > 0 ==> pow(radix as int, (k - 1) as nat) < n,
        decreases 64 - k,
    {
        proof {
            vstd::arithmetic::power2::lemma2_to64_rest();
            vstd::arithmetic::power2::lemma_pow2(64);
            lemma_pow_increases_in_base(2, radix as nat, 64);
            lemma_pow_strictly_increases_converse(radix as nat, k as nat, 64);
            assert(pow(radix as int, (k + 1) as nat) == radix * pow(radix as int, k as nat)) by {
                reveal(pow);
            }
            assert(reach * 2 <= reach * radix == radix * reach && reach * radix
                < 0x1_0000_0000_0000_0000 * 0x1_0000_0000_0000_0000) by (nonlinear_arith)
                requires
                    1 <= reach < 0x1_0000_0000_0000_0000,
                    2 <= radix < 0x1_0000_0000_0000_0000,
            ;
        }
        reach = reach * (radix as u128);
        k += 1;
    }
    proof {
        lemma_ceil_log_unique(radix as nat, n as nat, k as nat);
    }
    k
}

} // verus!
