//! The four-fold record of one quantity: its size in bytes, kilobytes,
//! megabytes and gigabytes, each as text.

use crate::magnitude::{Magnitude, Quantity};
use crate::unit::Unit;
use vstd::prelude::*;

verus! {

/// The character that writes the decimal digit `d`.
pub open spec fn digit_char(d: nat) -> char {
    ((d + 48) as u8) as char
}

/// `n` in decimal, without sign or leading zeros.
pub open spec fn decimal_text(n: nat) -> Seq<char>
    decreases n,
{
    if n < 10 {
        seq![digit_char(n)]
    } else {
        decimal_text(n / 10).push(digit_char(n % 10))
    }
}

/// An amount with its unit: the number, one space, the unit's plural name.
pub open spec fn shown_text(amount: nat, unit: Unit) -> Seq<char> {
    decimal_text(amount) + seq![' '] + unit.spec_label()
}

/// The one-character text of a decimal digit.
fn digit_text(d: u64) -> (text: &'static str)
    requires
        d <= 9,
    ensures
        text@ == seq![digit_char(d as nat)],
{
    proof {
        reveal_strlit("0");
        reveal_strlit("1");
        reveal_strlit("2");
        reveal_strlit("3");
        reveal_strlit("4");
        reveal_strlit("5");
        reveal_strlit("6");
        reveal_strlit("7");
        reveal_strlit("8");
        reveal_strlit("9");
    }
    let text = match d {
        0 => "0",
        1 => "1",
        2 => "2",
        3 => "3",
        4 => "4",
        5 => "5",
        6 => "6",
        7 => "7",
        8 => "8",
        _ => "9",
    };
    assert(text@ =~= seq![digit_char(d as nat)]);
    text
}

/// `n` in decimal.
pub fn decimal_string(n: u64) -> (text: String)
    ensures
        text@ == decimal_text(n as nat),
    decreases n,
{
    if n < 10 {
        String::from_str(digit_text(n))
    } else {
        let mut text = decimal_string(n / 10);
        text.append(digit_text(n % 10));
        assert(text@ =~= decimal_text((n / 10) as nat).push(digit_char((n % 10) as nat)));
        text
    }
}

/// An amount with its unit, as in `"24 megabytes"`.
pub fn shown_string(amount: u64, unit: Unit) -> (text: String)
    ensures
        text@ == shown_text(amount as nat, unit),
{
    let mut text = decimal_string(amount);
    proof {
        reveal_strlit(" ");
    }
    text.append(" ");
    text.append(unit.label());
    assert(text@ =~= shown_text(amount as nat, unit)) by {
        assert(" "@ =~= seq![' ']);
    }
    text
}

/// What a [`Sizes`] record holds: the four texts.
pub struct SizesView {
    pub bytes: Seq<char>,
    pub kilobytes: Seq<char>,
    pub megabytes: Seq<char>,
    pub gigabytes: Seq<char>,
}

impl SizesView {
    /// All four texts show the one quantity `value` of `unit`: each holds
    /// the whole units of its own size in it, and that unit's name.
    pub open spec fn describes(self, value: Quantity, unit: Unit) -> bool {
        &&& self.bytes == shown_text(value.amount(unit, Unit::Bytes) as nat, Unit::Bytes)
        &&& self.kilobytes == shown_text(
            value.amount(unit, Unit::Kilobytes) as nat,
            Unit::Kilobytes,
        )
        &&& self.megabytes == shown_text(
            value.amount(unit, Unit::Megabytes) as nat,
            Unit::Megabytes,
        )
        &&& self.gigabytes == shown_text(
            value.amount(unit, Unit::Gigabytes) as nat,
            Unit::Gigabytes,
        )
    }

    /// The four texts belong together: there is a quantity that all of them
    /// show.
    pub open spec fn consistent(self) -> bool {
        exists|value: Quantity, unit: Unit| self.describes(value, unit)
    }

    /// The record on one line: its name, then each field's name with its
    /// text in double quotes.
    pub open spec fn line(self) -> Seq<char> {
        "Sizes { bytes: \""@ + self.bytes + "\", kilobytes: \""@ + self.kilobytes
            + "\", megabytes: \""@ + self.megabytes + "\", gigabytes: \""@ + self.gigabytes
            + "\" }"@
    }
}

/// One quantity in all four units, each as text of the form
/// `"<whole number> <unit name>"`. A record is made by [`Sizes::from`] and
/// never changed, so its four texts always show one and the same quantity.
#[derive(Debug)]
pub struct Sizes {
    bytes: String,
    kilobytes: String,
    megabytes: String,
    gigabytes: String,
}

impl View for Sizes {
    type V = SizesView;

    closed spec fn view(&self) -> SizesView {
        SizesView {
            bytes: self.bytes@,
            kilobytes: self.kilobytes@,
            megabytes: self.megabytes@,
            gigabytes: self.gigabytes@,
        }
    }
}

impl Sizes {
    #[verifier::type_invariant]
    closed spec fn well_formed(self) -> bool {
        self@.consistent()
    }

    /// The sizes of `value`, which is given in `unit`.
    pub fn from(value: &Magnitude, unit: Unit) -> (sizes: Sizes)
        ensures
            sizes@.describes(value@, unit),
    {
        let bytes = shown_string(value.amount(unit, Unit::Bytes), Unit::Bytes);
        let kilobytes = shown_string(value.amount(unit, Unit::Kilobytes), Unit::Kilobytes);
        let megabytes = shown_string(value.amount(unit, Unit::Megabytes), Unit::Megabytes);
        let gigabytes = shown_string(value.amount(unit, Unit::Gigabytes), Unit::Gigabytes);
        proof {
            let view = SizesView {
                bytes: bytes@,
                kilobytes: kilobytes@,
                megabytes: megabytes@,
                gigabytes: gigabytes@,
            };
            assert(view.describes(value@, unit));
        }
        Sizes { bytes, kilobytes, megabytes, gigabytes }
    }

    /// The size in bytes.
    pub fn bytes(&self) -> (text: &String)
        ensures
            text@ == self@.bytes,
            self@.consistent(),
    {
        proof {
            use_type_invariant(self);
        }
        &self.bytes
    }

    /// The size in kilobytes.
    pub fn kilobytes(&self) -> (text: &String)
        ensures
            text@ == self@.kilobytes,
            self@.consistent(),
    {
        proof {
            use_type_invariant(self);
        }
        &self.kilobytes
    }

    /// The size in megabytes.
    pub fn megabytes(&self) -> (text: &String)
        ensures
            text@ == self@.megabytes,
            self@.consistent(),
    {
        proof {
            use_type_invariant(self);
        }
        &self.megabytes
    }

    /// The size in gigabytes.
    pub fn gigabytes(&self) -> (text: &String)
        ensures
            text@ == self@.gigabytes,
            self@.consistent(),
    {
        proof {
            use_type_invariant(self);
        }
        &self.gigabytes
    }

    /// The record on one line, as it is printed.
    pub fn line(&self) -> (text: String)
        ensures
            text@ == self@.line(),
    {
        let mut text = String::from_str("Sizes { bytes: \"");
        text.append(self.bytes.as_str());
        text.append("\", kilobytes: \"");
        text.append(self.kilobytes.as_str());
        text.append("\", megabytes: \"");
        text.append(self.megabytes.as_str());
        text.append("\", gigabytes: \"");
        text.append(self.gigabytes.as_str());
        text.append("\" }");
        assert(text@ =~= self@.line());
        text
    }
}

} // verus!
