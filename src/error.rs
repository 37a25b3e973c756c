use vstd::prelude::*;

verus! {

/// All possible errors that can occur during conversion.
#[derive(Debug, Clone, Copy, PartialEq, Eq, Structural)]
pub enum ConversionError {
    /// A symbol's magnitude cannot be represented in the requested integer type.
    GenericConversion,
    /// An input character has no magnitude in the alphabet.
    InvalidCharacter(char),
    /// A magnitude needed for the input number has no symbol in the alphabet.
    MissingMagnitude(u128),
    /// The input number is negative.
    NegativeNumber,
    /// Accumulating the decoded value left the range of the requested integer type.
    Overflow,
}

} // verus!
