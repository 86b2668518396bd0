//! Inspection of one numeric literal.
//!
//! A literal is read as a signed 64-bit integer or as a binary64 value
//! ([`literal`], [`value`]); every view of the value is then derived from its
//! bits alone: digit strings ([`text`]), the glyph banner ([`banner`]), bit
//! strings ([`bits`]), the meter ([`meter`]), the binary64 fields ([`ieee`])
//! and their written forms ([`notation`]). [`report`] gathers the views of
//! one value; [`round_trip`] states that reading and writing agree.
//!
//! The library holds no floating-point arithmetic. A binary64 value is its
//! 64 bits, and the one step that needs such arithmetic, the conversion of
//! decimal text to binary64, is handed to [`literal::parse_number`] by its
//! caller.

pub mod banner;
pub mod bits;
pub mod ieee;
pub mod literal;
pub mod meter;
pub mod notation;
pub mod report;
pub mod round_trip;
pub mod style;
pub mod text;
pub mod value;

pub use banner::ascii_digits;
pub use literal::parse_number;
pub use report::inspect;
pub use style::colorize;
pub use value::{Binary64, DomainValue, ParseError, Reason};
