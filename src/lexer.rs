//! The tokens of a property: identifier, separator and string literal.
use vstd::prelude::*;

use crate::grammar::{
    blank_class, ident_class, lemma_run_end, lex_identifier, lex_separator, lex_string, run_end,
    unquoted_class, Expected,
};
use crate::text::{blank_char, byte_len, ident_char, Source};

verus! {

/// A failed parse: where it failed, in bytes from the start of the input, what
/// was expected there, and what stood there instead (nothing at the end).
#[derive(Clone, Debug, PartialEq, Eq)]
pub struct ParseError {
    pub offset: usize,
    pub expected: Expected,
    pub found: Option<char>,
}

/// The failure at character position `pos` of `s`.
pub open spec fn error_at(s: Seq<char>, pos: int, expected: Expected) -> ParseError {
    ParseError {
        offset: byte_len(s.take(pos)) as usize,
        expected,
        found: if pos < s.len() {
            Some(s[pos])
        } else {
            None
        },
    }
}

/// The failure at position `pos` of `src`.
pub fn fail_at(src: &Source, pos: usize, expected: Expected) -> (r: ParseError)
    requires
        pos <= src@.len(),
    ensures
        r == error_at(src@, pos as int, expected),
{
    let found = if pos < src.len() {
        Some(src.char_at(pos))
    } else {
        None
    };
    ParseError { offset: src.byte_offset(pos), expected, found }
}

fn scan_ident(src: &Source, pos: usize) -> (r: usize)
    requires
        pos <= src@.len(),
    ensures
        r == run_end(src@, pos as int, ident_class()),
{
    let n = src.len();
    let mut i = pos;
    while i < n && ident_char(src.char_at(i))
        invariant
            pos <= i <= n,
            n == src@.len(),
            run_end(src@, i as int, ident_class()) == run_end(src@, pos as int, ident_class()),
        decreases n - i,
    {
        i = i + 1;
    }
    i
}

/// Skips the blanks (spaces, tabs, newlines, carriage returns) at `pos`.
/// Returns the position after them.
pub fn skip_blanks(src: &Source, pos: usize) -> (r: usize)
    requires
        pos <= src@.len(),
    ensures
        r == run_end(src@, pos as int, blank_class()),
        pos <= r <= src@.len(),
{
    let n = src.len();
    let mut i = pos;
    while i < n && blank_char(src.char_at(i))
        invariant
            pos <= i <= n,
            n == src@.len(),
            run_end(src@, i as int, blank_class()) == run_end(src@, pos as int, blank_class()),
        decreases n - i,
    {
        i = i + 1;
    }
    i
}

fn scan_unquoted(src: &Source, pos: usize) -> (r: usize)
    requires
        pos <= src@.len(),
    ensures
        r == run_end(src@, pos as int, unquoted_class()),
{
    let n = src.len();
    let mut i = pos;
    while i < n && src.char_at(i) != '"'
        invariant
            pos <= i <= n,
            n == src@.len(),
            run_end(src@, i as int, unquoted_class()) == run_end(
                src@,
                pos as int,
                unquoted_class(),
            ),
        decreases n - i,
    {
        i = i + 1;
    }
    i
}

/// Reads the identifier at `pos`: the longest run of alphanumerics, `-` and `_`,
/// possibly empty. Returns it and the position after it.
pub fn parse_identifier(src: &Source, pos: usize) -> (r: (String, usize))
    requires
        pos <= src@.len(),
    ensures
        (r.0@, r.1 as int) == lex_identifier(src@, pos as int),
        pos <= r.1 <= src@.len(),
{
    let end = scan_ident(src, pos);
    proof {
        lemma_run_end(src@, pos as int, ident_class());
    }
    (src.substring(pos, end), end)
}

/// Reads a colon at `pos`, with any blanks before and after it. Returns the
/// position after the trailing blanks.
pub fn parse_separator(src: &Source, pos: usize) -> (r: Result<usize, ParseError>)
    requires
        pos <= src@.len(),
    ensures
        r is Ok <==> lex_separator(src@, pos as int) is Ok,
        r matches Ok(n) ==> pos <= n <= src@.len(),
        r matches Ok(n) ==> lex_separator(src@, pos as int) == Ok::<int, (int, Expected)>(
            n as int,
        ),
        r matches Err(e) ==> lex_separator(src@, pos as int) matches Err((q, x)) && e
            == error_at(src@, q, x),
{
    let a = skip_blanks(src, pos);
    proof {
        lemma_run_end(src@, pos as int, blank_class());
    }
    if a < src.len() && src.char_at(a) == ':' {
        proof {
            lemma_run_end(src@, a + 1, blank_class());
        }
        Ok(skip_blanks(src, a + 1))
    } else {
        Err(fail_at(src, a, Expected::Char(':')))
    }
}

/// Reads a string literal at `pos`: a quote, any characters but a quote, and a
/// closing quote. Returns the text between the quotes and the position after
/// the closing one.
pub fn parse_string_value(src: &Source, pos: usize) -> (r: Result<(String, usize), ParseError>)
    requires
        pos <= src@.len(),
    ensures
        r is Ok <==> lex_string(src@, pos as int) is Ok,
        r matches Ok((v, n)) ==> pos < n <= src@.len(),
        r matches Ok((v, n)) ==> lex_string(src@, pos as int) == Ok::<
            (Seq<char>, int),
            (int, Expected),
        >((v@, n as int)),
        r matches Err(e) ==> lex_string(src@, pos as int) matches Err((q, x)) && e == error_at(
            src@,
            q,
            x,
        ),
{
    if !(pos < src.len() && src.char_at(pos) == '"') {
        return Err(fail_at(src, pos, Expected::Char('"')));
    }
    let end = scan_unquoted(src, pos + 1);
    proof {
        lemma_run_end(src@, pos + 1, unquoted_class());
    }
    if end < src.len() {
        Ok((src.substring(pos + 1, end), end + 1))
    } else {
        Err(fail_at(src, end, Expected::Char('"')))
    }
}

} // verus!
