//! Magnitudes: the exact numbers that a size is given as, and how many
//! whole units of each size they come to.

use crate::decimal::{
    all_decimal, clip, digits_of, digits_value, digits_value_up_to, lemma_cancel_common_factor,
    lemma_digits_value_bound, lemma_pow10_adds, lemma_pow10_positive,
    lemma_scaled_floor_saturates, lemma_scaled_floor_vanishes, pow10, scaled_floor,
    scaled_floor_of_digits,
};
use crate::unit::Unit;
use vstd::arithmetic::div_mod::lemma_div_by_multiple;
use vstd::prelude::*;

verus! {

/// The mathematical value of a magnitude.
pub enum Quantity {
    /// No number at all.
    NotANumber,
    /// Beyond every number, on the positive or the negative side.
    Infinite { negative: bool },
    /// `significand × 10^exponent`, negated where `negative` is set.
    Finite { negative: bool, significand: nat, exponent: int },
}

impl Quantity {
    /// The number `significand × 10^exponent`.
    pub open spec fn positive(significand: nat, exponent: int) -> Quantity {
        Quantity::Finite { negative: false, significand, exponent }
    }

    /// The whole number `n`.
    pub open spec fn whole(n: nat) -> Quantity {
        Quantity::positive(n, 0)
    }

    /// The numerator of a finite quantity's absolute value, written as a
    /// fraction of whole numbers over [`Quantity::denominator`].
    pub open spec fn numerator(self) -> nat {
        match self {
            Quantity::Finite { significand, exponent, .. } => if exponent >= 0 {
                significand * pow10(exponent as nat)
            } else {
                significand
            },
            _ => 0,
        }
    }

    /// The denominator of that fraction: a power of ten.
    pub open spec fn denominator(self) -> nat {
        match self {
            Quantity::Finite { exponent, .. } => if exponent >= 0 {
                1
            } else {
                pow10((-exponent) as nat)
            },
            _ => 1,
        }
    }

    /// The whole number that a finite quantity's absolute value reaches:
    /// what stands before its decimal point.
    pub open spec fn floor(self) -> nat {
        self.numerator() / self.denominator()
    }

    /// The whole units of `target` in this quantity of `unit`, as a
    /// conversion shows them.
    ///
    /// The quantity is first taken to bytes, `value × factor(unit)`, and the
    /// bytes are then divided by `factor(target)`; what is left after the
    /// decimal point is cut off. A result beyond 64 bits is shown as
    /// `u64::MAX`, positive infinity too; a negative quantity and what is
    /// not a number are shown as `0`.
    pub open spec fn amount(self, unit: Unit, target: Unit) -> u64 {
        match self {
            Quantity::NotANumber => 0,
            Quantity::Infinite { negative } => if negative {
                0
            } else {
                u64::MAX
            },
            Quantity::Finite { negative, .. } => if negative {
                0
            } else {
                clip(
                    (self.numerator() * unit.spec_scale_factor()) / (self.denominator()
                        * target.spec_scale_factor()),
                )
            },
        }
    }
}

/// Taking a quantity to bytes and on to another unit moves its decimal
/// point by the difference of the two units' places.
pub proof fn lemma_amount_is_scaled_floor(significand: nat, exponent: int, unit: Unit, target: Unit)
    ensures
        Quantity::positive(significand, exponent).amount(unit, target) == clip(
            scaled_floor(significand, exponent + unit.spec_places() - target.spec_places()),
        ),
{
    let q = Quantity::positive(significand, exponent);
    let up = unit.spec_places();
    let down = target.spec_places();
    unit.lemma_scale_factor_is_power();
    target.lemma_scale_factor_is_power();
    let a: nat = if exponent >= 0 {
        exponent as nat
    } else {
        0
    };
    let b: nat = if exponent >= 0 {
        0
    } else {
        (-exponent) as nat
    };
    assert(q.numerator() == significand * pow10(a)) by {
        assert(significand * pow10(0) == significand) by (nonlinear_arith)
            requires
                pow10(0) == 1,
        ;
    }
    assert(q.denominator() == pow10(b));
    lemma_pow10_adds(a, up);
    lemma_pow10_adds(b, down);
    let top = pow10(a + up);
    let bottom = pow10(b + down);
    lemma_pow10_positive(a + up);
    lemma_pow10_positive(b + down);
    assert(q.numerator() * pow10(up) == significand * top) by (nonlinear_arith)
        requires
            q.numerator() == significand * pow10(a),
            top == pow10(a) * pow10(up),
    ;
    let shift = exponent + up - down;
    if shift >= 0 {
        lemma_pow10_adds(shift as nat, b + down);
        assert(significand * top == (significand * pow10(shift as nat)) * bottom)
            by (nonlinear_arith)
            requires
                top == pow10(shift as nat) * bottom,
        ;
        lemma_div_by_multiple((significand * pow10(shift as nat)) as int, bottom as int);
    } else {
        lemma_pow10_adds((-shift) as nat, a + up);
        lemma_pow10_positive((-shift) as nat);
        lemma_cancel_common_factor(significand, pow10((-shift) as nat), top);
    }
}

/// What kind of value a magnitude is.
#[derive(Clone, Copy, Debug, PartialEq, Eq, Structural)]
enum Class {
    NotANumber,
    Infinite,
    Finite,
}

/// A magnitude as it was given: a decimal number of any length, kept digit
/// by digit so that nothing of it is rounded away, or one of the two values
/// that are no finite number.
#[derive(Debug)]
pub struct Magnitude {
    class: Class,
    negative: bool,
    /// Digits before and after the decimal point, most significant first.
    digits: Vec<u8>,
    /// How many of `digits` stand after the decimal point.
    fraction_digits: usize,
    exponent_negative: bool,
    /// Digits of the written power of ten, empty where none was written.
    exponent_digits: Vec<u8>,
}

/// Written exponents from here on all behave alike: beyond any number of
/// digits that memory can hold.
const EXPONENT_LIMIT: u128 = 1_000_000_000_000_000_000_000_000_000_000;

impl Magnitude {
    #[verifier::type_invariant]
    closed spec fn well_formed(self) -> bool {
        &&& all_decimal(self.digits@)
        &&& all_decimal(self.exponent_digits@)
    }

    /// The power of ten that was written, with its sign.
    closed spec fn written_exponent(self) -> int {
        if self.exponent_negative {
            -(digits_value(self.exponent_digits@) as int)
        } else {
            digits_value(self.exponent_digits@) as int
        }
    }

    /// The value that is not a number.
    pub fn not_a_number() -> (magnitude: Magnitude)
        ensures
            magnitude@ == Quantity::NotANumber,
    {
        Magnitude {
            class: Class::NotANumber,
            negative: false,
            digits: Vec::new(),
            fraction_digits: 0,
            exponent_negative: false,
            exponent_digits: Vec::new(),
        }
    }

    /// Positive or negative infinity.
    pub fn infinite(negative: bool) -> (magnitude: Magnitude)
        ensures
            magnitude@ == (Quantity::Infinite { negative }),
    {
        Magnitude {
            class: Class::Infinite,
            negative,
            digits: Vec::new(),
            fraction_digits: 0,
            exponent_negative: false,
            exponent_digits: Vec::new(),
        }
    }

    /// The whole number `n`.
    pub fn whole(n: u64) -> (magnitude: Magnitude)
        ensures
            magnitude@ == Quantity::whole(n as nat),
    {
        let digits = digits_of(n);
        let exponent_digits: Vec<u8> = Vec::new();
        assert(digits_value(exponent_digits@) == 0);
        Magnitude {
            class: Class::Finite,
            negative: false,
            digits,
            fraction_digits: 0,
            exponent_negative: false,
            exponent_digits,
        }
    }

    /// The finite number written by `digits`, of which the last
    /// `fraction_digits` stand after the decimal point, times ten to the
    /// power written by `exponent_digits`.
    pub(crate) fn finite(
        negative: bool,
        digits: Vec<u8>,
        fraction_digits: usize,
        exponent_negative: bool,
        exponent_digits: Vec<u8>,
    ) -> (magnitude: Magnitude)
        requires
            all_decimal(digits@),
            all_decimal(exponent_digits@),
        ensures
            magnitude@ == (Quantity::Finite {
                negative,
                significand: digits_value(digits@),
                exponent: (if exponent_negative {
                    -(digits_value(exponent_digits@) as int)
                } else {
                    digits_value(exponent_digits@) as int
                }) - fraction_digits,
            }),
    {
        Magnitude {
            class: Class::Finite,
            negative,
            digits,
            fraction_digits,
            exponent_negative,
            exponent_digits,
        }
    }

    /// The whole units of `target` in this magnitude of `unit`, cut off
    /// after the decimal point and limited to 64 bits.
    pub fn amount(&self, unit: Unit, target: Unit) -> (shown: u64)
        ensures
            shown == self@.amount(unit, target),
    {
        proof {
            use_type_invariant(self);
        }
        match self.class {
            Class::NotANumber => 0,
            Class::Infinite => if self.negative {
                0
            } else {
                u64::MAX
            },
            Class::Finite => {
                if self.negative {
                    return 0;
                }
                let written = digits_value_up_to(&self.exponent_digits, EXPONENT_LIMIT);
                let signed: i128 = if self.exponent_negative {
                    -(written as i128)
                } else {
                    written as i128
                };
                let shift: i128 = signed - self.fraction_digits as i128 + unit.places() as i128
                    - target.places() as i128;
                let shown = scaled_floor_of_digits(&self.digits, shift);
                proof {
                    assert(self.digits@.len() == self.digits.len());
                    let significand = digits_value(self.digits@);
                    let exponent = self.written_exponent() - self.fraction_digits;
                    let exact = exponent + unit.spec_places() - target.spec_places();
                    lemma_amount_is_scaled_floor(significand, exponent, unit, target);
                    if digits_value(self.exponent_digits@) > EXPONENT_LIMIT {
                        if self.exponent_negative {
                            lemma_digits_value_bound(self.digits@);
                            lemma_scaled_floor_vanishes(
                                significand,
                                self.digits@.len(),
                                exact,
                            );
                            lemma_scaled_floor_vanishes(
                                significand,
                                self.digits@.len(),
                                shift as int,
                            );
                        } else {
                            lemma_scaled_floor_saturates(significand, exact);
                            lemma_scaled_floor_saturates(significand, shift as int);
                        }
                    }
                }
                shown
            },
        }
    }
}

impl View for Magnitude {
    type V = Quantity;

    closed spec fn view(&self) -> Quantity {
        match self.class {
            Class::NotANumber => Quantity::NotANumber,
            Class::Infinite => Quantity::Infinite { negative: self.negative },
            Class::Finite => Quantity::Finite {
                negative: self.negative,
                significand: digits_value(self.digits@),
                exponent: self.written_exponent() - self.fraction_digits,
            },
        }
    }
}

} // verus!
