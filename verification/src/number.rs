//! The grammar of magnitudes: which words write a number, and which number.
//!
//! ```text
//! Magnitude ::= Sign? ( 'inf' | 'infinity' | 'nan' | Number )
//! Number    ::= ( Digit+ | Digit+ '.' Digit* | Digit* '.' Digit+ ) Exp?
//! Exp       ::= 'e' Sign? Digit+
//! Sign      ::= [+-]
//! Digit     ::= [0-9]
//! ```
//!
//! Letters count in either case.

use crate::decimal::{all_decimal, digits_value};
use crate::magnitude::{Magnitude, Quantity};
use crate::text::{chars_of, reads_as, spells};
use vstd::prelude::*;

verus! {

/// Whether `c` is one of the digits `0` to `9`.
pub open spec fn is_digit(c: char) -> bool {
    '0' <= c <= '9'
}

/// Whether `c` is a plus or a minus sign.
pub open spec fn is_sign(c: char) -> bool {
    c == '+' || c == '-'
}

/// The digit that the character `c` writes.
pub open spec fn digit_of(c: char) -> u8 {
    ((c as u32) - 48) as u8
}

/// How many digits stand in a row from index `from` on.
pub open spec fn digit_run(text: Seq<char>, from: int) -> nat
    decreases text.len() - from,
{
    if 0 <= from < text.len() && is_digit(text[from]) {
        1 + digit_run(text, from + 1)
    } else {
        0
    }
}

/// The `count` digits that stand from index `from` on.
pub open spec fn digits_at(text: Seq<char>, from: int, count: nat) -> Seq<u8> {
    Seq::new(count, |i: int| digit_of(text[from + i]))
}

/// The finite number that `text` writes from index `start` to its end, if
/// it writes one there: digits with at most one decimal point among them,
/// then, if anything follows, a power of ten.
pub open spec fn finite_number(text: Seq<char>, start: int, negative: bool) -> Option<Quantity> {
    let whole = digit_run(text, start);
    let point: nat = if start + whole < text.len() && text[start + whole] == '.' {
        1
    } else {
        0
    };
    let fraction = digit_run(text, start + whole + point);
    let end = start + whole + point + fraction;
    let significand = digits_value(
        digits_at(text, start, whole) + digits_at(text, start + whole + point, fraction),
    );
    if whole + fraction == 0 {
        None
    } else if end == text.len() {
        Some(Quantity::Finite { negative, significand, exponent: -(fraction as int) })
    } else if text[end] == 'e' || text[end] == 'E' {
        let sign: nat = if end + 1 < text.len() && is_sign(text[end + 1]) {
            1
        } else {
            0
        };
        let power_digits = digit_run(text, end + 1 + sign);
        let power = digits_value(digits_at(text, end + 1 + sign, power_digits)) as int;
        if power_digits == 0 || end + 1 + sign + power_digits != text.len() {
            None
        } else if sign == 1 && text[end + 1] == '-' {
            Some(Quantity::Finite { negative, significand, exponent: -power - fraction })
        } else {
            Some(Quantity::Finite { negative, significand, exponent: power - fraction })
        }
    } else {
        None
    }
}

/// The quantity that the word `token` writes, if it writes one.
pub open spec fn number_of(token: Seq<char>) -> Option<Quantity> {
    let negative = token.len() > 0 && token[0] == '-';
    let start: int = if token.len() > 0 && is_sign(token[0]) {
        1
    } else {
        0
    };
    if spells(token, start, "nan"@) {
        Some(Quantity::NotANumber)
    } else if spells(token, start, "inf"@) || spells(token, start, "infinity"@) {
        Some(Quantity::Infinite { negative })
    } else {
        finite_number(token, start, negative)
    }
}

/// Reads the digits that stand in a row from index `from` on and appends
/// them to `digits`.
fn scan_digits(text: &Vec<char>, from: usize, digits: &mut Vec<u8>) -> (count: usize)
    requires
        from <= text.len(),
        all_decimal(old(digits)@),
    ensures
        count == digit_run(text@, from as int),
        from + count <= text.len(),
        final(digits)@ == old(digits)@ + digits_at(text@, from as int, count as nat),
        all_decimal(final(digits)@),
{
    let n = text.len();
    let mut at: usize = from;
    assert(digits@ =~= old(digits)@ + digits_at(text@, from as int, 0));
    while at < n && '0' <= text[at] && text[at] <= '9'
        invariant
            from <= at <= n,
            n == text.len(),
            digit_run(text@, from as int) == (at - from) + digit_run(text@, at as int),
            digits@ == old(digits)@ + digits_at(text@, from as int, (at - from) as nat),
            all_decimal(digits@),
        decreases n - at,
    {
        let digit = ((text[at] as u32) - 48) as u8;
        digits.push(digit);
        at += 1;
        assert(digits@ =~= old(digits)@ + digits_at(text@, from as int, (at - from) as nat));
    }
    at - from
}

/// The finite magnitude that `token` writes from index `start` to its end,
/// if it writes one there.
fn parse_finite(token: &Vec<char>, start: usize, negative: bool) -> (parsed: Option<Magnitude>)
    requires
        start <= token.len(),
    ensures
        match parsed {
            Some(magnitude) => finite_number(token@, start as int, negative) == Some(magnitude@),
            None => finite_number(token@, start as int, negative) is None,
        },
{
    let n = token.len();
    let mut digits: Vec<u8> = Vec::new();
    let whole = scan_digits(token, start, &mut digits);
    let mut at: usize = start + whole;
    if at < n && token[at] == '.' {
        at += 1;
    }
    let fraction = scan_digits(token, at, &mut digits);
    let end = at + fraction;
    assert(digits@ =~= digits_at(token@, start as int, whole as nat) + digits_at(
        token@,
        at as int,
        fraction as nat,
    ));
    if whole + fraction == 0 {
        return None;
    }
    if end == n {
        let exponent_digits: Vec<u8> = Vec::new();
        assert(digits_value(exponent_digits@) == 0);
        return Some(Magnitude::finite(negative, digits, fraction, false, exponent_digits));
    }
    if token[end] != 'e' && token[end] != 'E' {
        return None;
    }
    let signed = end + 1 < n && (token[end + 1] == '+' || token[end + 1] == '-');
    let exponent_negative = signed && token[end + 1] == '-';
    let power_at = if signed {
        end + 2
    } else {
        end + 1
    };
    let mut exponent_digits: Vec<u8> = Vec::new();
    let power_digits = scan_digits(token, power_at, &mut exponent_digits);
    assert(exponent_digits@ =~= digits_at(token@, power_at as int, power_digits as nat));
    if power_digits == 0 || power_at + power_digits != n {
        return None;
    }
    Some(Magnitude::finite(negative, digits, fraction, exponent_negative, exponent_digits))
}

/// The magnitude that the word `token` writes, if it writes one.
pub fn parse_number(token: &Vec<char>) -> (parsed: Option<Magnitude>)
    ensures
        match parsed {
            Some(magnitude) => number_of(token@) == Some(magnitude@),
            None => number_of(token@) is None,
        },
{
    let n = token.len();
    let negative = n > 0 && token[0] == '-';
    let start: usize = if n > 0 && (token[0] == '+' || token[0] == '-') {
        1
    } else {
        0
    };
    if reads_as(token, start, "nan") {
        Some(Magnitude::not_a_number())
    } else if reads_as(token, start, "inf") || reads_as(token, start, "infinity") {
        Some(Magnitude::infinite(negative))
    } else {
        parse_finite(token, start, negative)
    }
}

impl Magnitude {
    /// The magnitude that the word `token` writes, if it writes one.
    pub fn parse(token: &str) -> (parsed: Option<Magnitude>)
        ensures
            match parsed {
                Some(magnitude) => number_of(token@) == Some(magnitude@),
                None => number_of(token@) is None,
            },
    {
        let chars = chars_of(token);
        parse_number(&chars)
    }
}

} // verus!
