//! JSON notation of texts and lists of texts.

use crate::text::{chars_of, push_char, texts};
use vstd::prelude::*;
use vstd::string::*;

verus! {

/// The hexadecimal digit, in lower case, that stands for `d`, for `d` below sixteen.
pub open spec fn hex_digit(d: int) -> char {
    if d < 10 {
        (48 + d) as u8 as char
    } else {
        (87 + d) as u8 as char
    }
}

/// The hexadecimal digit that stands for `d`.
pub fn hex_digit_of(d: u8) -> (r: char)
    requires
        d < 16,
    ensures
        r == hex_digit(d as int),
{
    if d < 10 {
        (48 + d) as char
    } else {
        (87 + d) as char
    }
}

/// How a character stands inside a JSON string.
pub open spec fn json_char(c: char) -> Seq<char> {
    if c == '"' {
        seq!['\\', '"']
    } else if c == '\\' {
        seq!['\\', '\\']
    } else if c == '\u{8}' {
        seq!['\\', 'b']
    } else if c == '\t' {
        seq!['\\', 't']
    } else if c == '\n' {
        seq!['\\', 'n']
    } else if c == '\u{c}' {
        seq!['\\', 'f']
    } else if c == '\r' {
        seq!['\\', 'r']
    } else if c as u32 <= 31 {
        seq!['\\', 'u', '0', '0', hex_digit(c as int / 16), hex_digit(c as int % 16)]
    } else {
        seq![c]
    }
}

/// A text as it stands inside a JSON string.
pub open spec fn json_chars(s: Seq<char>) -> Seq<char>
    decreases s.len(),
{
    if s.len() == 0 {
        Seq::empty()
    } else {
        json_chars(s.drop_last()) + json_char(s.last())
    }
}

/// The JSON string that stands for a text.
pub open spec fn json_quoted(s: Seq<char>) -> Seq<char> {
    seq!['"'] + json_chars(s) + seq!['"']
}

/// Appends a character as it stands inside a JSON string.
fn push_json_char(out: &mut String, c: char)
    ensures
        final(out)@ == old(out)@ + json_char(c),
{
    let ghost start = out@;
    if c == '"' {
        push_char(out, '\\');
        push_char(out, '"');
    } else if c == '\\' {
        push_char(out, '\\');
        push_char(out, '\\');
    } else if c == '\u{8}' {
        push_char(out, '\\');
        push_char(out, 'b');
    } else if c == '\t' {
        push_char(out, '\\');
        push_char(out, 't');
    } else if c == '\n' {
        push_char(out, '\\');
        push_char(out, 'n');
    } else if c == '\u{c}' {
        push_char(out, '\\');
        push_char(out, 'f');
    } else if c == '\r' {
        push_char(out, '\\');
        push_char(out, 'r');
    } else if c as u32 <= 31 {
        let n: u8 = c as u8;
        push_char(out, '\\');
        push_char(out, 'u');
        push_char(out, '0');
        push_char(out, '0');
        push_char(out, hex_digit_of(n / 16));
        push_char(out, hex_digit_of(n % 16));
    } else {
        push_char(out, c);
    }
    assert(out@ =~= start + json_char(c));
}

/// Appends the JSON string that stands for a text.
pub fn push_json_quoted(out: &mut String, s: &str)
    ensures
        final(out)@ == old(out)@ + json_quoted(s@),
{
    let ghost start = out@;
    let cs = chars_of(s);
    push_char(out, '"');
    let mut i: usize = 0;
    assert(cs@.take(0) =~= Seq::<char>::empty());
    assert(out@ =~= start + seq!['"'] + json_chars(cs@.take(0)));
    while i < cs.len()
        invariant
            i <= cs@.len(),
            out@ == start + seq!['"'] + json_chars(cs@.take(i as int)),
        decreases cs@.len() - i,
    {
        push_json_char(out, cs[i]);
        proof {
            assert(cs@.take(i + 1).drop_last() =~= cs@.take(i as int));
            assert(cs@.take(i + 1).last() == cs@[i as int]);
            assert(out@ =~= start + seq!['"'] + json_chars(cs@.take(i + 1)));
        }
        i = i + 1;
    }
    push_char(out, '"');
    assert(cs@.take(i as int) =~= s@);
    assert(out@ =~= start + json_quoted(s@));
}

/// The JSON strings of a list of texts, separated by commas.
pub open spec fn json_items(v: Seq<Seq<char>>) -> Seq<char>
    decreases v.len(),
{
    if v.len() == 0 {
        Seq::empty()
    } else if v.len() == 1 {
        json_quoted(v[0])
    } else {
        json_items(v.drop_last()) + ","@ + json_quoted(v.last())
    }
}

/// Appends the JSON array of a list of texts.
pub fn push_json_list(out: &mut String, v: &[String])
    ensures
        final(out)@ == old(out)@ + ("["@ + json_items(texts(v@)) + "]"@),
{
    let ghost start = out@;
    let ghost all = texts(v@);
    out.append("[");
    let mut i: usize = 0;
    assert(all.take(0) =~= Seq::<Seq<char>>::empty());
    assert(out@ =~= start + "["@ + json_items(all.take(0)));
    while i < v.len()
        invariant
            i <= v@.len(),
            all == texts(v@),
            out@ == start + "["@ + json_items(all.take(i as int)),
        decreases v@.len() - i,
    {
        if i > 0 {
            out.append(",");
        }
        push_json_quoted(out, v[i].as_str());
        proof {
            assert(all.take(i + 1).drop_last() =~= all.take(i as int));
            assert(all.take(i + 1).last() == v@[i as int]@);
            assert(out@ =~= start + "["@ + json_items(all.take(i + 1)));
        }
        i = i + 1;
    }
    out.append("]");
    assert(all.take(i as int) =~= all);
    assert(out@ =~= start + ("["@ + json_items(texts(v@)) + "]"@));
}

/// The JSON text that `serde_json` prints for the value it reads from bytes, if it reads one.
pub uninterp spec fn json_normal(bytes: Seq<u8>) -> Option<Seq<char>>;

/// The integer for which a JSON text stands, if `serde_json` reads one that fits sixty-four bits.
pub uninterp spec fn json_integer(text: Seq<char>) -> Option<i64>;

/// The text that `String::from_utf8_lossy` reads from bytes.
pub uninterp spec fn lossy_text(bytes: Seq<u8>) -> Seq<char>;

/// The JSON text of the value that bytes stand for.
///
/// Trusted: `serde_json::from_slice` decides from the bytes alone whether they are JSON, and the
/// value prints as a text that depends on it alone. Which text that is is left unsaid.
#[verifier::external_body]
pub(crate) fn normalise_json(bytes: &[u8]) -> (r: Option<String>)
    ensures
        match r {
            Some(t) => json_normal(bytes@) == Some(t@),
            None => json_normal(bytes@) is None,
        },
{
    match serde_json::from_slice::<serde_json::Value>(bytes) {
        Ok(value) => Some(value.to_string()),
        Err(_) => None,
    }
}

/// The integer for which a JSON text stands.
///
/// Trusted: `serde_json::from_str` and `Value::as_i64` decide from the text alone whether it is an
/// integer, and which one.
#[verifier::external_body]
pub(crate) fn integer_of_json(text: &str) -> (r: Option<i64>)
    ensures
        r == json_integer(text@),
{
    match serde_json::from_str::<serde_json::Value>(text) {
        Ok(value) => value.as_i64(),
        Err(_) => None,
    }
}

/// The text that bytes stand for, with a mark in place of what is not UTF-8.
///
/// Trusted: `String::from_utf8_lossy` gives the text that valid UTF-8 stands for; what it puts in
/// place of other bytes depends on the bytes alone and is left unsaid.
#[verifier::external_body]
pub(crate) fn text_from_utf8_lossy(bytes: &[u8]) -> (r: String)
    ensures
        r@ == lossy_text(bytes@),
        vstd::utf8::valid_utf8(bytes@) ==> r@ == vstd::utf8::decode_utf8(bytes@),
{
    String::from_utf8_lossy(bytes).to_string()
}

// ---- Laws ----

/// A text stands between quotes; texts one after the other are written one after the other.
pub proof fn law_texts_stand_in_quotes(a: Seq<char>, b: Seq<char>)
    ensures
        json_quoted(a) == seq!['"'] + json_chars(a) + seq!['"'],
        json_chars(a + b) == json_chars(a) + json_chars(b),
        json_chars(Seq::empty()) == Seq::<char>::empty(),
    decreases b.len(),
{
    if b.len() == 0 {
        assert(a + b =~= a);
        assert(json_chars(a) + json_chars(b) =~= json_chars(a));
    } else {
        law_texts_stand_in_quotes(a, b.drop_last());
        assert((a + b).drop_last() =~= a + b.drop_last());
        assert(json_chars(a + b) =~= json_chars(a) + json_chars(b));
    }
}

/// Quotes, backslashes and control characters are written behind a backslash; every other character
/// stands for itself.
pub proof fn law_only_some_characters_are_escaped(c: char)
    ensures
        c != '"' && c != '\\' && c as u32 >= 32 ==> json_chars(seq![c]) == seq![c],
        c == '"' || c == '\\' ==> json_chars(seq![c]) == seq!['\\', c],
        c as u32 == 8 ==> json_chars(seq![c]) == seq!['\\', 'b'],
        c as u32 == 9 ==> json_chars(seq![c]) == seq!['\\', 't'],
        c as u32 == 10 ==> json_chars(seq![c]) == seq!['\\', 'n'],
        c as u32 == 12 ==> json_chars(seq![c]) == seq!['\\', 'f'],
        c as u32 == 13 ==> json_chars(seq![c]) == seq!['\\', 'r'],
        (c as u32 <= 7 || c as u32 == 11 || 14 <= c as u32 <= 31) ==> json_chars(seq![c])
            == "\\u00"@ + seq![
            "0123456789abcdef"@[c as int / 16],
            "0123456789abcdef"@[c as int % 16],
        ],
{
    reveal_strlit("0123456789abcdef");
    reveal_strlit("\\u00");
    let s = seq![c];
    assert(s.drop_last() =~= Seq::<char>::empty());
    assert(json_chars(s.drop_last()) == Seq::<char>::empty());
    assert(json_chars(s) =~= json_char(c));
    if c as u32 <= 31 {
        assert("\\u00"@ + seq![
            "0123456789abcdef"@[c as int / 16],
            "0123456789abcdef"@[c as int % 16],
        ] =~= seq!['\\', 'u', '0', '0', hex_digit(c as int / 16), hex_digit(c as int % 16)]);
    }
}

/// Between the members of a list, and only there, stands a comma.
pub proof fn law_members_are_parted_by_commas(v: Seq<Seq<char>>, last: Seq<char>)
    ensures
        v.len() == 0 ==> json_items(v) == Seq::<char>::empty(),
        v.len() == 0 ==> json_items(v.push(last)) == json_quoted(last),
        v.len() > 0 ==> json_items(v.push(last)) == json_items(v) + seq![','] + json_quoted(last),
{
    reveal_strlit(",");
    assert(v.push(last).drop_last() =~= v);
    assert(","@ =~= seq![',']);
}

} // verus!
