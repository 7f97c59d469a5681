//! The four decimal size units and their scale factors.

use crate::decimal::pow10;
use crate::text::{chars_of, reads_as, spells};
use vstd::prelude::*;

verus! {

/// A size unit on the decimal (1000-based) scale.
#[derive(Clone, Copy, Debug, PartialEq, Eq, Structural)]
pub enum Unit {
    Bytes,
    Kilobytes,
    Megabytes,
    Gigabytes,
}

/// The unit that the word `tag` names, if it names one: `b` or `bytes`,
/// `kb`, `mb`, `gb`, with each letter in either case.
pub open spec fn unit_of_tag(tag: Seq<char>) -> Option<Unit> {
    if spells(tag, 0, "b"@) || spells(tag, 0, "bytes"@) {
        Some(Unit::Bytes)
    } else if spells(tag, 0, "kb"@) {
        Some(Unit::Kilobytes)
    } else if spells(tag, 0, "mb"@) {
        Some(Unit::Megabytes)
    } else if spells(tag, 0, "gb"@) {
        Some(Unit::Gigabytes)
    } else {
        None
    }
}

/// The unit that the word `tag` names, if it names one.
pub fn parse_unit(tag: &Vec<char>) -> (parsed: Option<Unit>)
    ensures
        parsed == unit_of_tag(tag@),
{
    if reads_as(tag, 0, "b") || reads_as(tag, 0, "bytes") {
        Some(Unit::Bytes)
    } else if reads_as(tag, 0, "kb") {
        Some(Unit::Kilobytes)
    } else if reads_as(tag, 0, "mb") {
        Some(Unit::Megabytes)
    } else if reads_as(tag, 0, "gb") {
        Some(Unit::Gigabytes)
    } else {
        None
    }
}

impl Unit {
    /// The unit that the word `tag` names, if it names one.
    pub fn parse(tag: &str) -> (parsed: Option<Unit>)
        ensures
            parsed == unit_of_tag(tag@),
    {
        let chars = chars_of(tag);
        parse_unit(&chars)
    }

    /// How many bytes one of this unit holds.
    pub open spec fn spec_scale_factor(self) -> nat {
        match self {
            Unit::Bytes => 1,
            Unit::Kilobytes => 1_000,
            Unit::Megabytes => 1_000_000,
            Unit::Gigabytes => 1_000_000_000,
        }
    }

    /// How many bytes one of this unit holds.
    pub fn scale_factor(self) -> (factor: u64)
        ensures
            factor == self.spec_scale_factor(),
    {
        match self {
            Unit::Bytes => 1,
            Unit::Kilobytes => 1_000,
            Unit::Megabytes => 1_000_000,
            Unit::Gigabytes => 1_000_000_000,
        }
    }

    /// How many decimal places lie between this unit and the byte.
    pub open spec fn spec_places(self) -> nat {
        match self {
            Unit::Bytes => 0,
            Unit::Kilobytes => 3,
            Unit::Megabytes => 6,
            Unit::Gigabytes => 9,
        }
    }

    /// How many decimal places lie between this unit and the byte.
    pub fn places(self) -> (places: u8)
        ensures
            places == self.spec_places(),
    {
        match self {
            Unit::Bytes => 0,
            Unit::Kilobytes => 3,
            Unit::Megabytes => 6,
            Unit::Gigabytes => 9,
        }
    }

    /// The scale factor is ten to the unit's decimal places.
    pub proof fn lemma_scale_factor_is_power(self)
        ensures
            pow10(self.spec_places()) == self.spec_scale_factor(),
    {
        reveal_with_fuel(pow10, 10);
    }

    /// The plural English name of the unit.
    pub open spec fn spec_label(self) -> Seq<char> {
        match self {
            Unit::Bytes => "bytes"@,
            Unit::Kilobytes => "kilobytes"@,
            Unit::Megabytes => "megabytes"@,
            Unit::Gigabytes => "gigabytes"@,
        }
    }

    /// The plural English name of the unit.
    pub fn label(self) -> (name: &'static str)
        ensures
            name@ == self.spec_label(),
    {
        match self {
            Unit::Bytes => "bytes",
            Unit::Kilobytes => "kilobytes",
            Unit::Megabytes => "megabytes",
            Unit::Gigabytes => "gigabytes",
        }
    }
}

} // verus!
