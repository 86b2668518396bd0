//! The value domain and the ways a literal can fail to parse.

use vstd::prelude::*;

verus! {

/// A binary64 value, held as its 64 bits: bit 63 is the sign, bits 62 to 52
/// the exponent field, bits 51 to 0 the fraction field.
#[derive(Clone, Copy, Debug, PartialEq, Eq, Structural)]
pub struct Binary64 {
    pub bits: u64,
}

/// What a literal denotes: a signed 64-bit integer or a binary64 value.
#[derive(Clone, Copy, Debug, PartialEq, Eq, Structural)]
pub enum DomainValue {
    Integer(i64),
    Float(Binary64),
}

/// Why a conversion from text failed.
#[derive(Clone, Copy, Debug, PartialEq, Eq, Structural)]
pub enum Reason {
    /// There was no text at all.
    Empty,
    /// A character is not a digit of the radix, or a sign stands alone.
    InvalidDigit,
    /// The number is above the largest signed 64-bit integer.
    PosOverflow,
    /// The number is below the smallest signed 64-bit integer.
    NegOverflow,
    /// The text is not a binary64 literal.
    MalformedFloat,
}

/// A literal that denotes no value.
#[derive(Clone, Copy, Debug, PartialEq, Eq, Structural)]
pub enum ParseError {
    /// The digits after a `0b`, `0o` or `0x` prefix are no integer of that base.
    InvalidRadixLiteral { base: u32, reason: Reason },
    /// A literal of float shape that binary64 conversion rejects.
    InvalidFloat { reason: Reason },
    /// A plain literal that is neither a decimal integer nor, where it is too
    /// large for one, a binary64 literal.
    InvalidDecimal { reason: Reason },
}

/// The value inspected when no literal is given.
pub const DEFAULT_INTEGER: i64 = 1337;

} // verus!
