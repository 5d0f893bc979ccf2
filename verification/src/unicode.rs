//! Properties of characters and texts that the Unicode standard defines.

use vstd::prelude::*;
use vstd::string::*;
use vstd::utf8::encode_utf8;

verus! {

/// Whether a character is a letter or a number.
pub uninterp spec fn is_alphanumeric(c: char) -> bool;

/// Whether a character is a letter.
pub uninterp spec fn is_alphabetic(c: char) -> bool;

/// Whether a character is white space.
pub uninterp spec fn is_whitespace(c: char) -> bool;

/// A text in lower case.
pub uninterp spec fn lowercase_of(s: Seq<char>) -> Seq<char>;

/// Whether a character is a letter or a number.
///
/// Trusted: `char::is_alphanumeric` depends on the character alone.
#[verifier::external_body]
pub(crate) fn alphanumeric(c: char) -> (r: bool)
    ensures
        r == is_alphanumeric(c),
{
    c.is_alphanumeric()
}

/// Whether a character is a letter.
///
/// Trusted: `char::is_alphabetic` depends on the character alone.
#[verifier::external_body]
pub(crate) fn alphabetic(c: char) -> (r: bool)
    ensures
        r == is_alphabetic(c),
{
    c.is_alphabetic()
}

/// Whether a character is white space.
///
/// Trusted: `char::is_whitespace` depends on the character alone.
#[verifier::external_body]
pub(crate) fn whitespace(c: char) -> (r: bool)
    ensures
        r == is_whitespace(c),
{
    c.is_whitespace()
}

/// A text in lower case.
///
/// Trusted: `str::to_lowercase` depends on the text alone. Which text it gives is left unsaid.
#[verifier::external_body]
pub(crate) fn lowercase(s: &str) -> (r: String)
    ensures
        r@ == lowercase_of(s@),
{
    s.to_lowercase()
}

/// The number of bytes of a text in UTF-8.
pub open spec fn byte_len(s: Seq<char>) -> nat {
    encode_utf8(s).len()
}

/// The number of bytes of a character in UTF-8.
pub open spec fn byte_width(c: char) -> nat {
    if c as u32 <= 0x7F {
        1
    } else if c as u32 <= 0x7FF {
        2
    } else if c as u32 <= 0xFFFF {
        3
    } else {
        4
    }
}

/// The number of bytes of a character in UTF-8.
pub fn width_of(c: char) -> (r: usize)
    ensures
        r == byte_width(c),
        1 <= r <= 4,
{
    if c as u32 <= 0x7F {
        1
    } else if c as u32 <= 0x7FF {
        2
    } else if c as u32 <= 0xFFFF {
        3
    } else {
        4
    }
}

/// One more character adds its bytes.
pub proof fn lemma_byte_len_push(s: Seq<char>, c: char)
    ensures
        byte_len(s.push(c)) == byte_len(s) + byte_width(c),
    decreases s.len(),
{
    vstd::utf8::char_is_scalar(c);
    if s.len() == 0 {
        let t = s.push(c);
        assert(t.drop_first() =~= s);
        assert(s =~= Seq::empty());
        assert(t[0] == c);
        assert(encode_utf8(s.push(c)) == vstd::utf8::encode_scalar(c as u32) + encode_utf8(t.drop_first()));
    } else {
        let t = s.push(c);
        assert(t.drop_first() =~= s.drop_first().push(c));
        lemma_byte_len_push(s.drop_first(), c);
        assert(t[0] == s[0]);
    }
}

} // verus!
