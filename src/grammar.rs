//! The grammar as mathematics: what each token matches at a character position.
//!
//! ```text
//! property   := identifier ws ':' ws string
//! identifier := (ALNUM | '-' | '_')*
//! string     := '"' (any-char-except '"')* '"'
//! ws         := (' ' | '\t' | '\n' | '\r')*
//! ```
use vstd::prelude::*;

use crate::text::{is_blank, is_ident_char, is_unquoted};

verus! {

/// What the parser expected where it failed.
#[derive(Clone, Copy, Debug, PartialEq, Eq)]
pub enum Expected {
    /// This very character.
    Char(char),
    /// The end of the input.
    End,
}

/// End of the longest run, starting at `i`, of characters satisfying `p`.
pub open spec fn run_end(s: Seq<char>, i: int, p: spec_fn(char) -> bool) -> int
    decreases s.len() - i,
{
    if 0 <= i < s.len() && p(s[i]) {
        run_end(s, i + 1, p)
    } else {
        i
    }
}

/// The class of identifier characters.
pub open spec fn ident_class() -> spec_fn(char) -> bool {
    |c: char| is_ident_char(c)
}

/// The class of blank characters.
pub open spec fn blank_class() -> spec_fn(char) -> bool {
    |c: char| is_blank(c)
}

/// The class of characters that may stand inside a string literal.
pub open spec fn unquoted_class() -> spec_fn(char) -> bool {
    |c: char| is_unquoted(c)
}

/// A run ends at the first character outside the class, or at the end of the input.
pub proof fn lemma_run_end(s: Seq<char>, i: int, p: spec_fn(char) -> bool)
    requires
        0 <= i <= s.len(),
    ensures
        i <= run_end(s, i, p) <= s.len(),
        forall|k: int| i <= k < run_end(s, i, p) ==> p(#[trigger] s[k]),
        run_end(s, i, p) < s.len() ==> !p(s[run_end(s, i, p)]),
    decreases s.len() - i,
{
    if i < s.len() && p(s[i]) {
        lemma_run_end(s, i + 1, p);
    }
}

/// A run that reaches `j` and stops there ends at `j`.
pub proof fn lemma_run_stops(s: Seq<char>, i: int, j: int, p: spec_fn(char) -> bool)
    requires
        0 <= i <= j <= s.len(),
        forall|k: int| i <= k < j ==> p(#[trigger] s[k]),
        j == s.len() || !p(s[j]),
    ensures
        run_end(s, i, p) == j,
    decreases j - i,
{
    if i < j {
        lemma_run_stops(s, i + 1, j, p);
    }
}

/// The identifier at `i`, and the position after it. It may be empty.
pub open spec fn lex_identifier(s: Seq<char>, i: int) -> (Seq<char>, int) {
    let e = run_end(s, i, ident_class());
    (s.subrange(i, e), e)
}

/// The colon at `i`, with the blanks around it: the position after them.
pub open spec fn lex_separator(s: Seq<char>, i: int) -> Result<int, (int, Expected)> {
    let a = run_end(s, i, blank_class());
    if a < s.len() && s[a] == ':' {
        Ok(run_end(s, a + 1, blank_class()))
    } else {
        Err((a, Expected::Char(':')))
    }
}

/// The string literal at `i`: the text between its quotes, and the position after it.
pub open spec fn lex_string(s: Seq<char>, i: int) -> Result<(Seq<char>, int), (int, Expected)> {
    if !(0 <= i < s.len() && s[i] == '"') {
        Err((i, Expected::Char('"')))
    } else {
        let e = run_end(s, i + 1, unquoted_class());
        if e < s.len() {
            Ok((s.subrange(i + 1, e), e + 1))
        } else {
            Err((e, Expected::Char('"')))
        }
    }
}

/// The property at `i`: its key, its value, and the position after its closing quote.
/// The first token that does not match decides the failure.
pub open spec fn lex_property(s: Seq<char>, i: int) -> Result<
    (Seq<char>, Seq<char>, int),
    (int, Expected),
> {
    let (key, k) = lex_identifier(s, i);
    match lex_separator(s, k) {
        Err(f) => Err(f),
        Ok(b) => match lex_string(s, b) {
            Err(f) => Err(f),
            Ok((value, e)) => Ok((key, value, e)),
        },
    }
}

} // verus!
