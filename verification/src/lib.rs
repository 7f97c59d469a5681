//! Decimal byte-size conversion: a magnitude in one unit, shown in all four.
//!
//! An input such as `"24 mb"` is split at white space ([`text`]), its first
//! word is read as a number ([`number`], [`magnitude`]) and its second as a
//! unit ([`unit`]). The quantity is taken to bytes and from there to each of
//! the four units, by exact decimal arithmetic ([`decimal`]), and the whole
//! units of each are written into one record ([`sizes`]). [`input`] ties
//! these steps together and names what can be wrong with an input; [`laws`]
//! states what holds of every conversion.

pub mod decimal;
pub mod input;
pub mod laws;
pub mod magnitude;
pub mod number;
pub mod sizes;
pub mod text;
pub mod unit;
