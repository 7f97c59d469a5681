//! Strings of decimal digits, powers of ten, and exact scaling with
//! truncation to a whole number.

use vstd::arithmetic::div_mod::{lemma_basic_div, lemma_div_by_multiple, lemma_div_denominator};
use vstd::prelude::*;

verus! {

/// Ten to the power `e`.
pub open spec fn pow10(e: nat) -> nat
    decreases e,
{
    if e == 0 {
        1
    } else {
        10 * pow10((e - 1) as nat)
    }
}

/// Every element is a decimal digit, `0` to `9`.
pub open spec fn all_decimal(digits: Seq<u8>) -> bool {
    forall|i: int| 0 <= i < digits.len() ==> digits[i] <= 9
}

/// The number that a string of decimal digits writes, most significant
/// digit first. The empty string writes zero.
pub open spec fn digits_value(digits: Seq<u8>) -> nat
    decreases digits.len(),
{
    if digits.len() == 0 {
        0
    } else {
        10 * digits_value(digits.drop_last()) + digits.last() as nat
    }
}

/// `significand × 10^exponent`, rounded down to a whole number.
pub open spec fn scaled_floor(significand: nat, exponent: int) -> nat {
    if exponent >= 0 {
        significand * pow10(exponent as nat)
    } else {
        significand / pow10((-exponent) as nat)
    }
}

/// `n` where it fits in 64 bits, else the largest 64-bit number.
pub open spec fn clip(n: nat) -> u64 {
    if n > u64::MAX {
        u64::MAX
    } else {
        n as u64
    }
}

/// A power of ten is at least one.
pub proof fn lemma_pow10_positive(e: nat)
    ensures
        pow10(e) >= 1,
    decreases e,
{
    if e > 0 {
        lemma_pow10_positive((e - 1) as nat);
    }
}

/// Powers of ten multiply by adding their exponents.
pub proof fn lemma_pow10_adds(a: nat, b: nat)
    ensures
        pow10(a + b) == pow10(a) * pow10(b),
    decreases a,
{
    if a == 0 {
        assert(pow10(0) * pow10(b) == pow10(b)) by (nonlinear_arith)
            requires
                pow10(0) == 1,
        ;
    } else {
        let a1 = (a - 1) as nat;
        lemma_pow10_adds(a1, b);
        assert(pow10(a + b) == 10 * pow10(a1 + b));
        assert(10 * (pow10(a1) * pow10(b)) == (10 * pow10(a1)) * pow10(b)) by (nonlinear_arith);
    }
}

/// A larger exponent gives no smaller power of ten.
pub proof fn lemma_pow10_monotone(a: nat, b: nat)
    requires
        a <= b,
    ensures
        pow10(a) <= pow10(b),
{
    let d = (b - a) as nat;
    lemma_pow10_adds(a, d);
    lemma_pow10_positive(a);
    lemma_pow10_positive(d);
    assert(pow10(a) <= pow10(a) * pow10(d)) by (nonlinear_arith)
        requires
            pow10(a) >= 1,
            pow10(d) >= 1,
    ;
}

/// Twenty decimal places are more than 64 bits hold.
pub proof fn lemma_pow10_twenty()
    ensures
        pow10(20) > u64::MAX,
{
    reveal_with_fuel(pow10, 21);
}

/// A string of `n` digits writes a number below `10^n`.
pub proof fn lemma_digits_value_bound(digits: Seq<u8>)
    requires
        all_decimal(digits),
    ensures
        digits_value(digits) < pow10(digits.len()),
    decreases digits.len(),
{
    if digits.len() > 0 {
        lemma_digits_value_bound(digits.drop_last());
    }
}

/// The first `k` digits write the whole number divided by the weight of the
/// digits left out, rounded down.
pub proof fn lemma_prefix_value(digits: Seq<u8>, k: int)
    requires
        all_decimal(digits),
        0 <= k <= digits.len(),
    ensures
        digits_value(digits.take(k)) == digits_value(digits) / pow10((digits.len() - k) as nat),
    decreases digits.len() - k,
{
    let n = digits.len() as int;
    let value = digits_value(digits);
    if k == n {
        assert(digits.take(k) =~= digits);
        assert(value / 1 == value);
    } else {
        lemma_prefix_value(digits, k + 1);
        let longer = digits.take(k + 1);
        assert(longer.drop_last() =~= digits.take(k));
        assert(longer.last() == digits[k]);
        let rest = pow10((n - k - 1) as nat);
        lemma_pow10_positive((n - k - 1) as nat);
        assert(digits_value(digits.take(k)) == digits_value(longer) / 10);
        lemma_div_denominator(value as int, rest as int, 10);
        assert(rest * 10 == pow10((n - k) as nat));
    }
}

/// A longer prefix of a digit string never writes a smaller number.
pub proof fn lemma_prefix_monotone(digits: Seq<u8>, i: int, k: int)
    requires
        all_decimal(digits),
        0 <= i <= k <= digits.len(),
    ensures
        digits_value(digits.take(i)) <= digits_value(digits.take(k)),
{
    let longer = digits.take(k);
    lemma_prefix_value(longer, i);
    assert(longer.take(i) =~= digits.take(i));
    let weight = pow10((k - i) as nat);
    lemma_pow10_positive((k - i) as nat);
    let v = digits_value(longer);
    assert(v / weight <= v) by (nonlinear_arith)
        requires
            weight >= 1,
    ;
}

/// A common factor of numerator and denominator leaves the quotient as it is.
pub proof fn lemma_cancel_common_factor(x: nat, p: nat, k: nat)
    requires
        p > 0,
        k > 0,
    ensures
        (x * k) / (p * k) == x / p,
{
    lemma_div_denominator((x * k) as int, k as int, p as int);
    lemma_div_by_multiple(x as int, k as int);
    assert(k * p == p * k) by (nonlinear_arith);
}

/// Scaling up by twenty places or more leaves nothing but zero inside 64
/// bits.
pub proof fn lemma_scaled_floor_saturates(significand: nat, exponent: int)
    requires
        exponent >= 20,
    ensures
        significand == 0 ==> scaled_floor(significand, exponent) == 0,
        significand > 0 ==> scaled_floor(significand, exponent) > u64::MAX,
{
    let p = pow10(exponent as nat);
    lemma_pow10_twenty();
    lemma_pow10_monotone(20, exponent as nat);
    if significand == 0 {
        assert(significand * p == 0) by (nonlinear_arith)
            requires
                significand == 0,
        ;
    } else {
        assert(significand * p >= p) by (nonlinear_arith)
            requires
                significand >= 1,
        ;
    }
}

/// Scaling down by at least as many places as the number has digits leaves
/// zero.
pub proof fn lemma_scaled_floor_vanishes(significand: nat, places: nat, exponent: int)
    requires
        significand < pow10(places),
        exponent <= -places,
    ensures
        scaled_floor(significand, exponent) == 0,
{
    if exponent < 0 {
        lemma_pow10_monotone(places, (-exponent) as nat);
        lemma_basic_div(significand as int, pow10((-exponent) as nat) as int);
    } else {
        assert(significand * pow10(0) == 0) by (nonlinear_arith)
            requires
                significand == 0,
        ;
    }
}

/// `digits × 10^exponent` rounded down to a whole number, or `u64::MAX`
/// where that does not fit.
pub(crate) fn scaled_floor_of_digits(digits: &Vec<u8>, exponent: i128) -> (shown: u64)
    requires
        all_decimal(digits@),
    ensures
        shown == clip(scaled_floor(digits_value(digits@), exponent as int)),
{
    let n = digits.len();
    let ghost value = digits_value(digits@);
    let keep: usize = if exponent >= 0 {
        n
    } else if exponent <= -(n as i128) {
        0
    } else {
        n - ((-exponent) as usize)
    };
    proof {
        lemma_prefix_value(digits@, keep as int);
        if exponent >= 0 {
            assert(value / 1 == value);
        } else if exponent <= -(n as i128) {
            lemma_digits_value_bound(digits@);
            lemma_scaled_floor_vanishes(value, n as nat, exponent as int);
            assert(digits@.take(0) =~= Seq::<u8>::empty());
        }
    }
    let ghost kept = digits_value(digits@.take(keep as int));
    assert(exponent < 0 ==> kept == scaled_floor(value, exponent as int));
    assert(exponent >= 0 ==> kept == value);

    let mut acc: u64 = 0;
    let mut i: usize = 0;
    while i < keep
        invariant
            i <= keep <= n,
            n == digits.len(),
            all_decimal(digits@),
            value == digits_value(digits@),
            kept == digits_value(digits@.take(keep as int)),
            exponent < 0 ==> kept == scaled_floor(value, exponent as int),
            exponent >= 0 ==> kept == value,
            acc == digits_value(digits@.take(i as int)),
        ensures
            i == keep,
            acc == kept,
        decreases keep - i,
    {
        let digit = digits[i];
        proof {
            let longer = digits@.take(i + 1);
            assert(longer.drop_last() =~= digits@.take(i as int));
            assert(longer.last() == digit);
            lemma_prefix_monotone(digits@, i + 1, keep as int);
        }
        let scaled = acc.checked_mul(10);
        let next = match scaled {
            Some(tens) => tens.checked_add(digit as u64),
            None => None,
        };
        match next {
            Some(sum) => {
                acc = sum;
            },
            None => {
                proof {
                    assert(kept > u64::MAX);
                    if exponent >= 0 {
                        lemma_pow10_positive(exponent as nat);
                        assert(value * pow10(exponent as nat) >= value) by (nonlinear_arith)
                            requires
                                pow10(exponent as nat) >= 1,
                        ;
                    }
                }
                return u64::MAX;
            },
        }
        i += 1;
    }
    if exponent <= 0 {
        proof {
            if exponent == 0 {
                assert(value * pow10(0) == value) by (nonlinear_arith)
                    requires
                        pow10(0) == 1,
                ;
            }
        }
        return acc;
    }
    if acc == 0 {
        proof {
            assert(value * pow10(exponent as nat) == 0) by (nonlinear_arith)
                requires
                    value == 0,
            ;
        }
        return 0;
    }
    let mut places: i128 = 0;
    proof {
        assert(value * pow10(0) == value) by (nonlinear_arith)
            requires
                pow10(0) == 1,
        ;
    }
    while places < exponent
        invariant
            0 <= places <= exponent,
            value == digits_value(digits@),
            value >= 1,
            acc == value * pow10(places as nat),
        decreases exponent - places,
    {
        proof {
            let p = pow10(places as nat);
            assert(pow10((places + 1) as nat) == 10 * p);
            assert(value * (10 * p) == 10 * (value * p)) by (nonlinear_arith);
            lemma_pow10_monotone((places + 1) as nat, exponent as nat);
            let q = pow10((places + 1) as nat);
            let r = pow10(exponent as nat);
            assert(value * q <= value * r) by (nonlinear_arith)
                requires
                    q <= r,
            ;
        }
        match acc.checked_mul(10) {
            Some(tens) => {
                acc = tens;
            },
            None => {
                return u64::MAX;
            },
        }
        places += 1;
    }
    acc
}


/// The string's number where it is at most `limit`, else `limit`. The
/// limit leaves room for one more digit within 128 bits.
pub(crate) fn digits_value_up_to(digits: &Vec<u8>, limit: u128) -> (value: u128)
    requires
        all_decimal(digits@),
        limit <= 1_000_000_000_000_000_000_000_000_000_000_000_000,
    ensures
        digits_value(digits@) <= limit ==> value == digits_value(digits@),
        digits_value(digits@) > limit ==> value == limit,
{
    let mut acc: u128 = 0;
    let mut i: usize = 0;
    while i < digits.len()
        invariant
            i <= digits.len(),
            all_decimal(digits@),
            limit <= 1_000_000_000_000_000_000_000_000_000_000_000_000,
            acc <= limit,
            digits_value(digits@.take(i as int)) <= limit ==> acc == digits_value(
                digits@.take(i as int),
            ),
            digits_value(digits@.take(i as int)) > limit ==> acc == limit,
        decreases digits.len() - i,
    {
        proof {
            let longer = digits@.take(i + 1);
            assert(longer.drop_last() =~= digits@.take(i as int));
            assert(longer.last() == digits[i as int]);
        }
        let next: u128 = acc * 10 + digits[i] as u128;
        acc = if next > limit {
            limit
        } else {
            next
        };
        i += 1;
    }
    assert(digits@.take(i as int) =~= digits@);
    acc
}

/// The decimal digits of `n`, most significant first.
pub(crate) fn digits_of(n: u64) -> (digits: Vec<u8>)
    ensures
        all_decimal(digits@),
        digits_value(digits@) == n,
        digits@.len() >= 1,
    decreases n,
{
    if n < 10 {
        let mut digits: Vec<u8> = Vec::new();
        digits.push(n as u8);
        assert(digits@.drop_last() =~= Seq::<u8>::empty());
        assert(digits_value(digits@.drop_last()) == 0);
        digits
    } else {
        let mut digits = digits_of(n / 10);
        let ghost before = digits@;
        digits.push((n % 10) as u8);
        assert(digits@.drop_last() =~= before);
        digits
    }
}

} // verus!
