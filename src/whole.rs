//! Parsing a whole text as one token or one property: a match that leaves
//! anything unread is a failure at the first unread character.
use vstd::prelude::*;

use crate::grammar::{
    blank_class, ident_class, lemma_run_end, lemma_run_stops, lex_identifier, lex_property,
    lex_string, unquoted_class, Expected,
};
use crate::lexer::{error_at, parse_identifier, parse_string_value, ParseError};
use crate::property::{expect_end, parse_property, span_of, Property};
use crate::text::{is_blank, is_ident_char, lemma_not_ident_char, Source};

verus! {

/// The whole of `s` as an identifier.
pub open spec fn whole_identifier(s: Seq<char>) -> Result<Seq<char>, (int, Expected)> {
    let (id, e) = lex_identifier(s, 0);
    if e == s.len() {
        Ok(id)
    } else {
        Err((e, Expected::End))
    }
}

/// The whole of `s` as a string literal: the text between its quotes.
pub open spec fn whole_string(s: Seq<char>) -> Result<Seq<char>, (int, Expected)> {
    match lex_string(s, 0) {
        Err(f) => Err(f),
        Ok((v, e)) => if e == s.len() {
            Ok(v)
        } else {
            Err((e, Expected::End))
        },
    }
}

/// The whole of `s` as a property: its key and its value.
pub open spec fn whole_property(s: Seq<char>) -> Result<(Seq<char>, Seq<char>), (int, Expected)> {
    match lex_property(s, 0) {
        Err(f) => Err(f),
        Ok((k, v, e)) => if e == s.len() {
            Ok((k, v))
        } else {
            Err((e, Expected::End))
        },
    }
}

/// Parses all of `text` as an identifier.
pub fn identifier_from_str(text: &str) -> (r: Result<String, ParseError>)
    ensures
        r is Ok <==> whole_identifier(text@) is Ok,
        r matches Ok(v) ==> whole_identifier(text@) == Ok::<Seq<char>, (int, Expected)>(v@),
        r matches Err(e) ==> whole_identifier(text@) matches Err((q, x)) && e == error_at(
            text@,
            q,
            x,
        ),
{
    let src = Source::new(text);
    let (id, e) = parse_identifier(&src, 0);
    match expect_end(&src, e) {
        Ok(()) => Ok(id),
        Err(x) => Err(x),
    }
}

/// Parses all of `text` as a string literal, returning the text between its quotes.
pub fn string_value_from_str(text: &str) -> (r: Result<String, ParseError>)
    ensures
        r is Ok <==> whole_string(text@) is Ok,
        r matches Ok(v) ==> whole_string(text@) == Ok::<Seq<char>, (int, Expected)>(v@),
        r matches Err(e) ==> whole_string(text@) matches Err((q, x)) && e == error_at(
            text@,
            q,
            x,
        ),
{
    let src = Source::new(text);
    let (v, e) = match parse_string_value(&src, 0) {
        Ok(r) => r,
        Err(x) => return Err(x),
    };
    match expect_end(&src, e) {
        Ok(()) => Ok(v),
        Err(x) => Err(x),
    }
}

/// Parses all of `text` as one property, whose span is then the whole text.
pub fn property_from_str(text: &str) -> (r: Result<Property, ParseError>)
    ensures
        r is Ok <==> whole_property(text@) is Ok,
        r matches Ok(p) ==> whole_property(text@) == Ok::<
            (Seq<char>, Seq<char>),
            (int, Expected),
        >((p@.key, p@.value)) && p@.span == span_of(text@, 0, text@.len() as int),
        r matches Err(e) ==> whole_property(text@) matches Err((q, x)) && e == error_at(
            text@,
            q,
            x,
        ),
{
    let src = Source::new(text);
    let (p, e) = match parse_property(&src, 0) {
        Ok(r) => r,
        Err(x) => return Err(x),
    };
    match expect_end(&src, e) {
        Ok(()) => Ok(p),
        Err(x) => Err(x),
    }
}

/// Parsing a run of identifier characters as an identifier gives it back whole.
pub proof fn law_identifier_round_trip(s: Seq<char>)
    requires
        forall|k: int| 0 <= k < s.len() ==> is_ident_char(#[trigger] s[k]),
    ensures
        whole_identifier(s) == Ok::<Seq<char>, (int, Expected)>(s),
{
    lemma_run_stops(s, 0, s.len() as int, ident_class());
    assert(s.subrange(0, s.len() as int) =~= s);
}

/// Quoting a text without quotes and parsing it as a string literal gives the text back.
pub proof fn law_string_round_trip(t: Seq<char>)
    requires
        forall|k: int| 0 <= k < t.len() ==> #[trigger] t[k] != '"',
    ensures
        whole_string(seq!['"'] + t + seq!['"']) == Ok::<Seq<char>, (int, Expected)>(t),
{
    let s = seq!['"'] + t + seq!['"'];
    let j = t.len() + 1int;
    assert(s[0] == '"');
    assert(s[j] == '"');
    assert forall|k: int| 1 <= k < j implies unquoted_class()(#[trigger] s[k]) by {
        assert(s[k] == t[k - 1]);
    }
    lemma_run_stops(s, 1, j, unquoted_class());
    assert(s.subrange(1, j) =~= t);
}

/// Blanks of any amount and kind before and after the colon leave key and value as they are.
pub proof fn law_blanks_around_colon(key: Seq<char>, w1: Seq<char>, w2: Seq<char>, value: Seq<char>)
    requires
        forall|k: int| 0 <= k < key.len() ==> is_ident_char(#[trigger] key[k]),
        forall|k: int| 0 <= k < w1.len() ==> is_blank(#[trigger] w1[k]),
        forall|k: int| 0 <= k < w2.len() ==> is_blank(#[trigger] w2[k]),
        forall|k: int| 0 <= k < value.len() ==> #[trigger] value[k] != '"',
    ensures
        whole_property(key + w1 + seq![':'] + w2 + seq!['"'] + value + seq!['"']) == Ok::<
            (Seq<char>, Seq<char>),
            (int, Expected),
        >((key, value)),
{
    let s = key + w1 + seq![':'] + w2 + seq!['"'] + value + seq!['"'];
    let p1 = key.len() as int;
    let p2 = p1 + w1.len();
    let p3 = p2 + 1;
    let p4 = p3 + w2.len();
    let p5 = p4 + 1;
    let p6 = p5 + value.len();
    assert(s.len() == p6 + 1);
    assert(s[p2] == ':');
    assert(s[p4] == '"');
    assert(s[p6] == '"');
    assert forall|k: int| 0 <= k < p1 implies ident_class()(#[trigger] s[k]) by {
        assert(s[k] == key[k]);
    }
    assert forall|k: int| p1 <= k < p2 implies blank_class()(#[trigger] s[k]) by {
        assert(s[k] == w1[k - p1]);
    }
    assert forall|k: int| p3 <= k < p4 implies blank_class()(#[trigger] s[k]) by {
        assert(s[k] == w2[k - p3]);
    }
    assert forall|k: int| p5 <= k < p6 implies unquoted_class()(#[trigger] s[k]) by {
        assert(s[k] == value[k - p5]);
    }
    if p1 < p2 {
        assert(s[p1] == w1[0]);
        lemma_not_ident_char(s[p1]);
    } else {
        lemma_not_ident_char(s[p1]);
    }
    lemma_run_stops(s, 0, p1, ident_class());
    lemma_run_stops(s, p1, p2, blank_class());
    if p3 < p4 {
        assert(s[p3] == w2[0]);
    }
    lemma_run_stops(s, p3, p4, blank_class());
    lemma_run_stops(s, p5, p6, unquoted_class());
    assert(s.subrange(0, p1) =~= key);
    assert(s.subrange(p5, p6) =~= value);
}

/// A text that does not open with a quote is no string literal.
pub proof fn law_missing_opening_quote(s: Seq<char>)
    requires
        s.len() == 0 || s[0] != '"',
    ensures
        whole_string(s) is Err,
{
}

/// A quote followed by text that never closes it is no string literal.
pub proof fn law_missing_closing_quote(t: Seq<char>)
    requires
        forall|k: int| 0 <= k < t.len() ==> #[trigger] t[k] != '"',
    ensures
        whole_string(seq!['"'] + t) is Err,
{
    let s = seq!['"'] + t;
    assert forall|k: int| 1 <= k < s.len() implies unquoted_class()(#[trigger] s[k]) by {
        assert(s[k] == t[k - 1]);
    }
    lemma_run_stops(s, 1, s.len() as int, unquoted_class());
}

/// A text that opens with a character outside the identifier alphabet is no
/// identifier, and, unless that character is a blank or a colon, no property.
pub proof fn law_leading_outsider(s: Seq<char>)
    requires
        s.len() > 0,
        !is_ident_char(s[0]),
    ensures
        whole_identifier(s) is Err,
        !is_blank(s[0]) && s[0] != ':' ==> whole_property(s) is Err,
{
    lemma_run_stops(s, 0, 0, ident_class());
    if !is_blank(s[0]) {
        lemma_run_stops(s, 0, 0, blank_class());
    }
}

} // verus!
