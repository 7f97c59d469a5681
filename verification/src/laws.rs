//! What holds of every conversion.

use crate::decimal::{clip, lemma_cancel_common_factor, lemma_pow10_positive, pow10};
use crate::magnitude::Quantity;
use crate::unit::Unit;
use vstd::arithmetic::div_mod::{lemma_fundamental_div_mod, lemma_mod_pos_bound};
use vstd::prelude::*;

verus! {

/// A quantity that is not negative, taken to bytes and back to the unit it
/// was given in, is shown as the quantity itself with what follows the
/// decimal point cut off (and limited to 64 bits, as every shown amount
/// is).
pub proof fn law_own_unit_shows_floor(significand: nat, exponent: int, unit: Unit)
    ensures
        Quantity::positive(significand, exponent).amount(unit, unit) == clip(
            Quantity::positive(significand, exponent).floor(),
        ),
{
    let q = Quantity::positive(significand, exponent);
    lemma_denominator_positive(q);
    lemma_cancel_common_factor(q.numerator(), q.denominator(), unit.spec_scale_factor());
}

/// A whole number of some unit, taken to bytes and back to that unit, is
/// shown unchanged.
pub proof fn law_whole_number_round_trip(n: u64, unit: Unit)
    ensures
        Quantity::whole(n as nat).amount(unit, unit) == n,
{
    let q = Quantity::whole(n as nat);
    law_own_unit_shows_floor(n as nat, 0, unit);
    assert(q.numerator() == n) by (nonlinear_arith)
        requires
            q.numerator() == n * pow10(0),
            pow10(0) == 1,
    ;
    assert(q.denominator() == 1);
    assert(q.floor() == n);
}

/// No shown amount exceeds the quantity: the whole units of `target` that
/// are shown for a quantity of `unit`, taken back to bytes, are at most the
/// quantity's bytes, `value × factor(unit)`. With bytes as the target this
/// is the shown byte count itself.
pub proof fn law_shown_amount_within_quantity(
    significand: nat,
    exponent: int,
    unit: Unit,
    target: Unit,
)
    ensures
        Quantity::positive(significand, exponent).amount(unit, target)
            * target.spec_scale_factor() * Quantity::positive(significand, exponent).denominator()
            <= Quantity::positive(significand, exponent).numerator() * unit.spec_scale_factor(),
        Quantity::positive(significand, exponent).amount(unit, Unit::Bytes) * Quantity::positive(
            significand,
            exponent,
        ).denominator() <= Quantity::positive(significand, exponent).numerator()
            * unit.spec_scale_factor(),
{
    let q = Quantity::positive(significand, exponent);
    lemma_denominator_positive(q);
    lemma_amount_times_divisor(q, unit, target);
    lemma_amount_times_divisor(q, unit, Unit::Bytes);
    let shown = q.amount(unit, target) as nat;
    let factor = target.spec_scale_factor();
    let den = q.denominator();
    assert(shown * factor * den == shown * (den * factor)) by (nonlinear_arith);
    let bytes = q.amount(unit, Unit::Bytes) as nat;
    assert(bytes * (den * 1) == bytes * den) by (nonlinear_arith);
}

/// Of two quantities that are not negative, given in one unit, the larger
/// is never shown as less than the smaller, in any unit.
pub proof fn law_shown_amount_is_monotone(
    smaller: (nat, int),
    larger: (nat, int),
    unit: Unit,
    target: Unit,
)
    requires
        Quantity::positive(smaller.0, smaller.1).numerator() * Quantity::positive(
            larger.0,
            larger.1,
        ).denominator() <= Quantity::positive(larger.0, larger.1).numerator()
            * Quantity::positive(smaller.0, smaller.1).denominator(),
    ensures
        Quantity::positive(smaller.0, smaller.1).amount(unit, target) <= Quantity::positive(
            larger.0,
            larger.1,
        ).amount(unit, target),
{
    let p = Quantity::positive(smaller.0, smaller.1);
    let q = Quantity::positive(larger.0, larger.1);
    lemma_denominator_positive(p);
    lemma_denominator_positive(q);
    let up = unit.spec_scale_factor();
    let down = target.spec_scale_factor();
    let n1 = p.numerator() * up;
    let d1 = p.denominator() * down;
    let n2 = q.numerator() * up;
    let d2 = q.denominator() * down;
    assert(d1 > 0 && d2 > 0) by (nonlinear_arith)
        requires
            p.denominator() > 0,
            q.denominator() > 0,
            down > 0,
            d1 == p.denominator() * down,
            d2 == q.denominator() * down,
    ;
    assert(n1 * d2 <= n2 * d1) by (nonlinear_arith)
        requires
            p.numerator() * q.denominator() <= q.numerator() * p.denominator(),
            n1 == p.numerator() * up,
            d1 == p.denominator() * down,
            n2 == q.numerator() * up,
            d2 == q.denominator() * down,
    ;
    lemma_quotients_ordered(n1, d1, n2, d2);
}

/// The denominator of a quantity is a power of ten, and so at least one.
proof fn lemma_denominator_positive(q: Quantity)
    ensures
        q.denominator() >= 1,
{
    match q {
        Quantity::Finite { exponent, .. } => {
            if exponent < 0 {
                lemma_pow10_positive((-exponent) as nat);
            }
        },
        _ => {},
    }
}

/// A shown amount times what the bytes were divided by is at most the
/// bytes' numerator.
proof fn lemma_amount_times_divisor(q: Quantity, unit: Unit, target: Unit)
    requires
        q is Finite,
        !q->Finite_negative,
    ensures
        q.amount(unit, target) * (q.denominator() * target.spec_scale_factor()) <= q.numerator()
            * unit.spec_scale_factor(),
{
    lemma_denominator_positive(q);
    let top = q.numerator() * unit.spec_scale_factor();
    let bottom = q.denominator() * target.spec_scale_factor();
    assert(bottom > 0) by (nonlinear_arith)
        requires
            q.denominator() >= 1,
            target.spec_scale_factor() >= 1,
            bottom == q.denominator() * target.spec_scale_factor(),
    ;
    lemma_fundamental_div_mod(top as int, bottom as int);
    let quotient = top / bottom;
    let shown = q.amount(unit, target) as nat;
    assert(shown <= quotient);
    assert(shown * bottom <= quotient * bottom) by (nonlinear_arith)
        requires
            shown <= quotient,
    ;
    assert(bottom * quotient == quotient * bottom) by (nonlinear_arith);
}

/// Fractions in order have their whole parts in order.
proof fn lemma_quotients_ordered(n1: nat, d1: nat, n2: nat, d2: nat)
    requires
        d1 > 0,
        d2 > 0,
        n1 * d2 <= n2 * d1,
    ensures
        n1 / d1 <= n2 / d2,
{
    let a = n1 / d1;
    let b = n2 / d2;
    lemma_fundamental_div_mod(n1 as int, d1 as int);
    lemma_fundamental_div_mod(n2 as int, d2 as int);
    lemma_mod_pos_bound(n1 as int, d1 as int);
    lemma_mod_pos_bound(n2 as int, d2 as int);
    assert(d1 * a == a * d1) by (nonlinear_arith);
    assert(d2 * b + d2 == (b + 1) * d2) by (nonlinear_arith);
    if a > b {
        assert(false) by (nonlinear_arith)
            requires
                d1 > 0,
                d2 > 0,
                n1 * d2 <= n2 * d1,
                a * d1 <= n1,
                n2 < (b + 1) * d2,
                a >= b + 1,
        ;
    }
}

} // verus!
