//! Properties: an identifier, a colon and a string literal, with the span they cover.
use vstd::prelude::*;

use crate::grammar::{lex_property, Expected};
use crate::lexer::{error_at, fail_at, parse_identifier, parse_separator, parse_string_value, ParseError};
use crate::text::{byte_len, Source};

verus! {

/// A half-open range of byte offsets, `start..end`.
#[derive(Clone, Copy, Debug, PartialEq, Eq)]
pub struct Span {
    pub start: usize,
    pub end: usize,
}

/// A parsed property: its key, its value, and the bytes of the input it covers,
/// from the first character of the key through the closing quote.
#[derive(Clone, Debug, PartialEq)]
pub struct Property {
    key: String,
    pub value: String,
    span: Span,
}

/// A property seen as its key and value text and its span.
pub struct PropertyView {
    pub key: Seq<char>,
    pub value: Seq<char>,
    pub span: Span,
}

impl View for Property {
    type V = PropertyView;

    closed spec fn view(&self) -> PropertyView {
        PropertyView { key: self.key@, value: self.value@, span: self.span }
    }
}

impl Property {
    /// A property of the given key, value and span.
    pub fn new(key: String, value: String, span: Span) -> (r: Property)
        ensures
            r@.key == key@,
            r@.value == value@,
            r@.span == span,
    {
        Property { key, value, span }
    }

    /// The identifier before the colon.
    pub fn key(&self) -> (r: &str)
        ensures
            r@ == self@.key,
    {
        self.key.as_str()
    }

    /// The text between the quotes.
    pub fn value(&self) -> (r: &str)
        ensures
            r@ == self@.value,
    {
        self.value.as_str()
    }

    /// The bytes of the input that the property covers.
    pub fn span(&self) -> (r: Span)
        ensures
            r == self@.span,
    {
        self.span
    }
}

/// The byte span of character positions `i` to `e` of `s`.
pub open spec fn span_of(s: Seq<char>, i: int, e: int) -> Span {
    Span { start: byte_len(s.take(i)) as usize, end: byte_len(s.take(e)) as usize }
}

/// Reads the property at `pos`: identifier, colon with blanks around it, string
/// literal. Returns it and the position after its closing quote, or the first
/// failure.
pub fn parse_property(src: &Source, pos: usize) -> (r: Result<(Property, usize), ParseError>)
    requires
        pos <= src@.len(),
    ensures
        r is Ok <==> lex_property(src@, pos as int) is Ok,
        r matches Ok((p, n)) ==> lex_property(src@, pos as int) matches Ok((k, v, e)) && p@.key
            == k && p@.value == v && n == e && p@.span == span_of(src@, pos as int, e),
        r matches Err(x) ==> lex_property(src@, pos as int) matches Err((q, w)) && x == error_at(
            src@,
            q,
            w,
        ),
{
    let start = src.byte_offset(pos);
    let (key, k) = parse_identifier(src, pos);
    let b = match parse_separator(src, k) {
        Ok(b) => b,
        Err(e) => return Err(e),
    };
    let (value, e) = match parse_string_value(src, b) {
        Ok(r) => r,
        Err(e) => return Err(e),
    };
    let end = src.byte_offset(e);
    Ok((Property { key, value, span: Span { start, end } }, e))
}

/// Succeeds exactly at the end of the input.
pub fn expect_end(src: &Source, pos: usize) -> (r: Result<(), ParseError>)
    requires
        pos <= src@.len(),
    ensures
        r is Ok <==> pos == src@.len(),
        r matches Err(e) ==> e == error_at(src@, pos as int, Expected::End),
{
    if pos == src.len() {
        Ok(())
    } else {
        Err(fail_at(src, pos, Expected::End))
    }
}

} // verus!
