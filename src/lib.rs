//! A verified parser for properties: an identifier, a colon that blanks may
//! surround, and a double-quoted string literal, as in `name: "value"`.
//!
//! Each token is parsed from a character position of a [`Source`] and the
//! result says, exactly, what the grammar matches there; the `*_from_str`
//! functions parse a whole text and fail on anything left unread.
pub mod grammar;
pub mod lexer;
pub mod property;
pub mod text;
pub mod whole;

pub use grammar::Expected;
pub use lexer::{parse_identifier, parse_separator, parse_string_value, skip_blanks, ParseError};
pub use property::{expect_end, parse_property, Property, Span};
pub use text::Source;
pub use whole::{identifier_from_str, property_from_str, string_value_from_str};
