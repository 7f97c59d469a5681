//! From the words of a command line to the sizes they ask for, or to the
//! reason why they ask for none.

use crate::magnitude::{Magnitude, Quantity};
use crate::number::{number_of, parse_number};
use crate::sizes::Sizes;
use crate::text::{chars_of, split_words, views, words};
use crate::unit::{parse_unit, unit_of_tag, Unit};
use vstd::prelude::*;

verus! {

/// Why an input asks for no conversion.
#[derive(Clone, Copy, Debug, PartialEq, Eq, Structural)]
pub enum InputError {
    /// No input was given at all.
    MissingArgument,
    /// The input is not two words, a number and a unit.
    MalformedInput,
    /// The first word writes no number.
    InvalidNumber,
    /// The second word names no unit.
    UnknownUnit,
}

/// What the text `input` asks for: it must be two words, of which the first
/// writes a number and the second names a unit, and it is tested in this
/// order.
pub open spec fn resolved(input: Seq<char>) -> Result<(Quantity, Unit), InputError> {
    let parts = words(input);
    if parts.len() != 2 {
        Err(InputError::MalformedInput)
    } else {
        match number_of(parts[0]) {
            None => Err(InputError::InvalidNumber),
            Some(value) => match unit_of_tag(parts[1]) {
                None => Err(InputError::UnknownUnit),
                Some(unit) => Ok((value, unit)),
            },
        }
    }
}

/// What a command line asks for. Its first word is the program's own name
/// and its second the input; further words are not looked at.
pub open spec fn requested(args: Seq<String>) -> Result<(Quantity, Unit), InputError> {
    if args.len() < 2 {
        Err(InputError::MissingArgument)
    } else {
        resolved(args[1]@)
    }
}

/// Whether `outcome` holds the sizes that `request` asks for, or the error
/// that it ends in.
pub open spec fn answers(
    outcome: Result<Sizes, InputError>,
    request: Result<(Quantity, Unit), InputError>,
) -> bool {
    match outcome {
        Ok(sizes) => request is Ok && sizes@.describes(request->Ok_0.0, request->Ok_0.1),
        Err(error) => request == Err::<(Quantity, Unit), InputError>(error),
    }
}

/// Reads a magnitude and its unit from a text such as `"24 mb"`.
pub fn resolve(input: &str) -> (outcome: Result<(Magnitude, Unit), InputError>)
    ensures
        match outcome {
            Ok(pair) => resolved(input@) == Ok::<(Quantity, Unit), InputError>((pair.0@, pair.1)),
            Err(error) => resolved(input@) == Err::<(Quantity, Unit), InputError>(error),
        },
{
    let chars = chars_of(input);
    let parts = split_words(&chars);
    assert(views(parts@).len() == parts@.len());
    if parts.len() != 2 {
        return Err(InputError::MalformedInput);
    }
    assert(views(parts@)[0] == parts@[0]@);
    assert(views(parts@)[1] == parts@[1]@);
    match parse_number(&parts[0]) {
        None => Err(InputError::InvalidNumber),
        Some(value) => match parse_unit(&parts[1]) {
            None => Err(InputError::UnknownUnit),
            Some(unit) => Ok((value, unit)),
        },
    }
}

/// The sizes that a text such as `"24 mb"` asks for.
pub fn convert(input: &str) -> (outcome: Result<Sizes, InputError>)
    ensures
        answers(outcome, resolved(input@)),
{
    match resolve(input) {
        Ok(pair) => Ok(Sizes::from(&pair.0, pair.1)),
        Err(error) => Err(error),
    }
}

/// The sizes that a command line asks for.
pub fn run(args: &Vec<String>) -> (outcome: Result<Sizes, InputError>)
    ensures
        answers(outcome, requested(args@)),
{
    if args.len() < 2 {
        return Err(InputError::MissingArgument);
    }
    convert(args[1].as_str())
}

/// The status with which the program ends: `0` after a conversion, `1`
/// after any error.
pub fn exit_status(outcome: &Result<Sizes, InputError>) -> (status: i32)
    ensures
        status == (if outcome is Ok {
            0int
        } else {
            1int
        }),
{
    match outcome {
        Ok(_) => 0,
        Err(_) => 1,
    }
}

impl InputError {
    /// The line that tells the user what was wrong.
    pub open spec fn spec_message(self) -> Seq<char> {
        match self {
            InputError::MissingArgument =>
                "Error: Debes proporcionar un tamaño y unidad. Ejemplo: cargo run \"24 mb\""@,
            InputError::MalformedInput =>
                "Error: Formato incorrecto. Usa algo como \"24 mb\" o \"300 kb\"."@,
            InputError::InvalidNumber => "Error: El primer valor debe ser un número válido."@,
            InputError::UnknownUnit => "Error: Unidad no válida. Usa b, kb, mb o gb."@,
        }
    }

    /// The line that tells the user what was wrong.
    pub fn message(self) -> (line: String)
        ensures
            line@ == self.spec_message(),
    {
        match self {
            InputError::MissingArgument => String::from_str(
                "Error: Debes proporcionar un tamaño y unidad. Ejemplo: cargo run \"24 mb\"",
            ),
            InputError::MalformedInput => String::from_str(
                "Error: Formato incorrecto. Usa algo como \"24 mb\" o \"300 kb\".",
            ),
            InputError::InvalidNumber => String::from_str(
                "Error: El primer valor debe ser un número válido.",
            ),
            InputError::UnknownUnit => String::from_str(
                "Error: Unidad no válida. Usa b, kb, mb o gb.",
            ),
        }
    }
}

} // verus!
