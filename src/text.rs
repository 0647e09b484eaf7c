//! Characters of the grammar, and byte offsets of character positions.
use vstd::prelude::*;
use vstd::string::StrSliceExecFns;
use vstd::utf8::*;

verus! {

/// Number of bytes in the UTF-8 encoding of `s`.
pub open spec fn byte_len(s: Seq<char>) -> nat {
    encode_utf8(s).len()
}

/// Encoding a concatenation encodes each part in turn.
pub proof fn lemma_encode_concat(a: Seq<char>, b: Seq<char>)
    ensures
        encode_utf8(a + b) == encode_utf8(a) + encode_utf8(b),
    decreases a.len(),
{
    if a.len() == 0 {
        assert(a + b =~= b);
        assert(encode_utf8(a) + encode_utf8(b) =~= encode_utf8(b));
    } else {
        lemma_encode_concat(a.drop_first(), b);
        assert((a + b).drop_first() =~= a.drop_first() + b);
        assert((a + b)[0] == a[0]);
        let h = encode_scalar(a[0] as u32);
        assert(h + (encode_utf8(a.drop_first()) + encode_utf8(b)) =~= (h + encode_utf8(
            a.drop_first(),
        )) + encode_utf8(b));
    }
}

/// The byte length of a prefix grows by the width of the next character.
pub proof fn lemma_byte_len_step(s: Seq<char>, i: int)
    requires
        0 <= i < s.len(),
    ensures
        byte_len(s.take(i + 1)) == byte_len(s.take(i)) + encode_scalar(s[i] as u32).len(),
{
    lemma_encode_concat(s.take(i), seq![s[i]]);
    assert(s.take(i + 1) =~= s.take(i) + seq![s[i]]);
    let one = seq![s[i]];
    assert(one[0] == s[i]);
    assert(one.drop_first() =~= Seq::<char>::empty());
    assert(encode_utf8(one.drop_first()) =~= Seq::<u8>::empty());
    assert(encode_utf8(one) =~= encode_scalar(s[i] as u32));
}

/// Byte length of a prefix never exceeds that of the whole.
pub proof fn lemma_byte_len_prefix(s: Seq<char>, i: int)
    requires
        0 <= i <= s.len(),
    ensures
        byte_len(s.take(i)) <= byte_len(s),
{
    lemma_encode_concat(s.take(i), s.skip(i));
    assert(s.take(i) + s.skip(i) =~= s);
}

/// Width in bytes of the UTF-8 encoding of `c`.
pub fn utf8_width(c: char) -> (r: usize)
    ensures
        r == encode_scalar(c as u32).len(),
        1 <= r <= 4,
{
    let v = c as u32;
    if v <= 0x7f {
        1
    } else if v <= 0x7ff {
        2
    } else if v <= 0xffff {
        proof {
            char_is_scalar(c);
        }
        3
    } else {
        proof {
            char_is_scalar(c);
        }
        4
    }
}

/// What `char::is_alphanumeric` returns for a character beyond ASCII.
pub uninterp spec fn alphanumeric(c: char) -> bool;

/// ASCII letters and digits.
pub open spec fn ascii_alphanumeric(c: char) -> bool {
    let v = c as u32;
    (0x30 <= v <= 0x39) || (0x41 <= v <= 0x5a) || (0x61 <= v <= 0x7a)
}

/// Alphanumeric characters: within ASCII the letters and the digits, beyond it
/// those that Unicode calls alphabetic or numeric.
pub open spec fn is_alnum(c: char) -> bool {
    if (c as u32) < 0x80 {
        ascii_alphanumeric(c)
    } else {
        alphanumeric(c)
    }
}

/// Relies on `char::is_alphanumeric`: its result depends on the character alone
/// (Unicode's Alphabetic property, or a numeric general category), and within
/// ASCII it holds exactly of the letters and the digits.
#[verifier::external_body]
fn is_alphanumeric(c: char) -> (r: bool)
    ensures
        (c as u32) < 0x80 ==> r == ascii_alphanumeric(c),
        (c as u32) >= 0x80 ==> r == alphanumeric(c),
{
    c.is_alphanumeric()
}

/// Characters an identifier is made of: alphanumerics, `-` and `_`.
pub open spec fn is_ident_char(c: char) -> bool {
    is_alnum(c) || c == '-' || c == '_'
}

/// Blank characters around the separator: space, tab, newline, carriage return.
pub open spec fn is_blank(c: char) -> bool {
    c == ' ' || c == '\t' || c == '\n' || c == '\r'
}

/// Anything but the quote that ends a string literal.
pub open spec fn is_unquoted(c: char) -> bool {
    c != '"'
}

/// Whether `c` may stand in an identifier.
pub fn ident_char(c: char) -> (r: bool)
    ensures
        r == is_ident_char(c),
{
    c == '-' || c == '_' || is_alphanumeric(c)
}

/// Whether `c` is a blank character.
pub fn blank_char(c: char) -> (r: bool)
    ensures
        r == is_blank(c),
{
    c == ' ' || c == '\t' || c == '\n' || c == '\r'
}

/// Punctuation and blanks of the grammar are no identifier characters.
pub proof fn lemma_not_ident_char(c: char)
    requires
        is_blank(c) || c == ':' || c == '"',
    ensures
        !is_ident_char(c),
{
}

/// The input text as characters, with the byte offset of every character position.
pub struct Source {
    text: String,
    chars: Vec<char>,
    offsets: Vec<usize>,
}

impl View for Source {
    type V = Seq<char>;

    closed spec fn view(&self) -> Seq<char> {
        self.chars@
    }
}

impl Source {
    #[verifier::type_invariant]
    spec fn inv(&self) -> bool {
        &&& self.text@ == self.chars@
        &&& self.offsets@.len() == self.chars@.len() + 1
        &&& forall|i: int|
            0 <= i <= self.chars@.len() ==> #[trigger] self.offsets@[i] == byte_len(
                self.chars@.take(i),
            )
    }

    /// Reads `text` into a source.
    pub fn new(text: &str) -> (r: Source)
        ensures
            r@ == text@,
    {
        broadcast use vstd::string::group_string_axioms;

        let total = text.as_bytes().len();
        let mut chars: Vec<char> = Vec::new();
        let mut offsets: Vec<usize> = Vec::new();
        offsets.push(0);
        let mut off: usize = 0;
        assert(chars@ =~= text@.take(0));
        assert(encode_utf8(Seq::<char>::empty()) =~= Seq::<u8>::empty());
        for c in it: text.chars()
            invariant
                it.seq() == text@,
                total == byte_len(text@),
                chars@ == text@.take(it.index()),
                off == byte_len(chars@),
                offsets@.len() == chars@.len() + 1,
                forall|i: int|
                    0 <= i <= chars@.len() ==> #[trigger] offsets@[i] == byte_len(chars@.take(i)),
        {
            let ghost k = it.index();
            proof {
                lemma_byte_len_step(text@, k);
                lemma_byte_len_prefix(text@, k + 1);
                assert(text@.take(k + 1).take(k) =~= text@.take(k));
            }
            off = off + utf8_width(c);
            chars.push(c);
            offsets.push(off);
            assert(chars@ =~= text@.take(k + 1));
            assert forall|i: int| 0 <= i <= chars@.len() implies #[trigger] offsets@[i] == byte_len(
                chars@.take(i),
            ) by {
                if i < chars@.len() {
                    assert(chars@.take(i) =~= text@.take(k).take(i));
                } else {
                    assert(chars@.take(i) =~= chars@);
                }
            }
        }
        assert(chars@ =~= text@);
        Source { text: text.to_owned(), chars, offsets }
    }

    /// Number of characters.
    pub fn len(&self) -> (r: usize)
        ensures
            r == self@.len(),
    {
        self.chars.len()
    }

    /// The character at position `i`.
    pub fn char_at(&self, i: usize) -> (r: char)
        requires
            i < self@.len(),
        ensures
            r == self@[i as int],
    {
        self.chars[i]
    }

    /// The characters from position `a` up to position `b`, as a string of their own.
    pub fn substring(&self, a: usize, b: usize) -> (r: String)
        requires
            a <= b <= self@.len(),
        ensures
            r@ == self@.subrange(a as int, b as int),
    {
        proof {
            use_type_invariant(self);
        }
        self.text.as_str().substring_char(a, b).to_owned()
    }

    /// Byte offset of character position `i`.
    pub fn byte_offset(&self, i: usize) -> (r: usize)
        requires
            i <= self@.len(),
        ensures
            r == byte_len(self@.take(i as int)),
    {
        proof {
            use_type_invariant(self);
        }
        self.offsets[i]
    }
}

} // verus!
