//! Hexadecimal notation of bytes.

use crate::json_text::{hex_digit, hex_digit_of};
use crate::text::push_char;
use vstd::prelude::*;
use vstd::string::*;
use vstd::utf8::{encode_utf8, is_ascii_chars, is_ascii_chars_encode_utf8, is_char_boundary};

verus! {

/// The hexadecimal notation of bytes, two lower-case digits each.
pub open spec fn hex_of(bytes: Seq<u8>) -> Seq<char>
    decreases bytes.len(),
{
    if bytes.len() == 0 {
        Seq::empty()
    } else {
        hex_of(bytes.drop_last()) + seq![
            hex_digit(bytes.last() as int / 16),
            hex_digit(bytes.last() as int % 16),
        ]
    }
}

/// The hexadecimal notation of bytes.
pub fn hex_encode(bytes: &[u8]) -> (r: String)
    ensures
        r@ == hex_of(bytes@),
{
    let mut out = String::new();
    let mut i: usize = 0;
    assert(bytes@.take(0) =~= Seq::<u8>::empty());
    assert(out@ =~= hex_of(bytes@.take(0)));
    while i < bytes.len()
        invariant
            i <= bytes@.len(),
            out@ == hex_of(bytes@.take(i as int)),
        decreases bytes@.len() - i,
    {
        let b: u8 = bytes[i];
        push_char(&mut out, hex_digit_of(b / 16));
        push_char(&mut out, hex_digit_of(b % 16));
        proof {
            assert(bytes@.take(i + 1).drop_last() =~= bytes@.take(i as int));
            assert(out@ =~= hex_of(bytes@.take(i + 1)));
        }
        i = i + 1;
    }
    assert(bytes@.take(i as int) =~= bytes@);
    out
}

/// The value of a hexadecimal digit, in lower or upper case.
pub open spec fn hex_value(b: u8) -> Option<u8> {
    if 48 <= b && b <= 57 {
        Some((b - 48) as u8)
    } else if 97 <= b && b <= 102 {
        Some((b - 87) as u8)
    } else if 65 <= b && b <= 70 {
        Some((b - 55) as u8)
    } else {
        None
    }
}

fn hex_value_of(b: u8) -> (r: Option<u8>)
    ensures
        r == hex_value(b),
{
    if 48 <= b && b <= 57 {
        Some(b - 48)
    } else if 97 <= b && b <= 102 {
        Some(b - 87)
    } else if 65 <= b && b <= 70 {
        Some(b - 55)
    } else {
        None
    }
}

/// The byte that two characters denote: two digits, or a plus sign and a digit.
pub open spec fn hex_pair(a: u8, b: u8) -> Option<u8> {
    match hex_value(b) {
        Some(lo) => if a == 43 {
            Some(lo)
        } else {
            match hex_value(a) {
                Some(hi) => Some((hi * 16 + lo) as u8),
                None => None,
            }
        },
        None => None,
    }
}

/// The bytes that the first `k` pairs denote, if all of them denote one.
pub open spec fn hex_bytes(s: Seq<u8>, k: int) -> Option<Seq<u8>>
    decreases k,
{
    if k <= 0 {
        Some(Seq::empty())
    } else {
        match (hex_bytes(s, k - 1), hex_pair(s[2 * k - 2], s[2 * k - 1])) {
            (Some(rest), Some(b)) => Some(rest.push(b)),
            _ => None,
        }
    }
}

/// The bytes that a text denotes in hexadecimal notation.
pub open spec fn hex_decoded(s: Seq<u8>) -> Option<Seq<u8>> {
    if s.len() % 2 != 0 {
        None
    } else {
        hex_bytes(s, s.len() as int / 2)
    }
}

/// Whether hexadecimal notation can be read pair by pair up to the first pair that denotes nothing:
/// no character lies across the end of a pair until then.
pub open spec fn is_readable(s: Seq<u8>) -> bool {
    s.len() % 2 == 0 ==> forall|k: int|
        0 <= k < s.len() / 2 && #[trigger] hex_bytes(s, k) is Some ==> is_char_boundary(s, 2 * k + 2)
}

/// The bytes that a text denotes in hexadecimal notation, if its length is even and all of it is
/// hexadecimal.
pub fn hex_decode(s: &str) -> (r: Option<Vec<u8>>)
    requires
        is_readable(encode_utf8(s@)),
    ensures
        match r {
            Some(v) => hex_decoded(encode_utf8(s@)) == Some(v@),
            None => hex_decoded(encode_utf8(s@)) is None,
        },
{
    let bytes = s.as_bytes();
    let n: usize = bytes.len();
    if n % 2 != 0 {
        return None;
    }
    let mut out: Vec<u8> = Vec::new();
    let mut k: usize = 0;
    while k < n / 2
        invariant
            k <= n / 2,
            n == bytes@.len(),
            n % 2 == 0,
            bytes@ == encode_utf8(s@),
            hex_bytes(bytes@, k as int) == Some(out@),
        decreases n / 2 - k,
    {
        let a: u8 = bytes[2 * k];
        let b: u8 = bytes[2 * k + 1];
        let hi = hex_value_of(a);
        let lo = hex_value_of(b);
        let byte: Option<u8> = match lo {
            Some(l) => if a == 43 {
                Some(l)
            } else {
                match hi {
                    Some(h) => Some(h * 16 + l),
                    None => None,
                }
            },
            None => None,
        };
        assert(byte == hex_pair(bytes@[2 * (k + 1) - 2], bytes@[2 * (k + 1) - 1]));
        match byte {
            Some(v) => {
                out.push(v);
            },
            None => {
                proof {
                    lemma_hex_fails(bytes@, k + 1, n as int / 2);
                }
                return None;
            },
        }
        k = k + 1;
    }
    Some(out)
}

proof fn lemma_hex_fails(s: Seq<u8>, k: int, n: int)
    requires
        0 <= k <= n,
        hex_bytes(s, k) is None,
    ensures
        hex_bytes(s, n) is None,
    decreases n - k,
{
    if k < n {
        lemma_hex_fails(s, k, n - 1);
    }
}

/// What hexadecimal notation consists of.
pub open spec fn is_hex_char(c: char) -> bool {
    ('0' <= c && c <= '9') || ('a' <= c && c <= 'f')
}

pub proof fn lemma_hex_chars(bytes: Seq<u8>)
    ensures
        hex_of(bytes).len() == 2 * bytes.len(),
        forall|i: int| 0 <= i < hex_of(bytes).len() ==> is_hex_char(#[trigger] hex_of(bytes)[i]),
    decreases bytes.len(),
{
    if bytes.len() > 0 {
        lemma_hex_chars(bytes.drop_last());
    }
}

proof fn lemma_hex_prefix(s: Seq<u8>, t: Seq<u8>, k: int)
    requires
        2 * k <= s.len(),
        2 * k <= t.len(),
        forall|i: int| 0 <= i < 2 * k ==> s[i] == t[i],
    ensures
        hex_bytes(s, k) == hex_bytes(t, k),
    decreases k,
{
    if k > 0 {
        lemma_hex_prefix(s, t, k - 1);
    }
}

proof fn lemma_hex_back(s: Seq<u8>, bytes: Seq<u8>)
    requires
        s.len() == 2 * bytes.len(),
        forall|i: int| 0 <= i < s.len() ==> s[i] == #[trigger] hex_of(bytes)[i] as u8,
    ensures
        hex_bytes(s, bytes.len() as int) == Some(bytes),
    decreases bytes.len(),
{
    lemma_hex_chars(bytes);
    if bytes.len() > 0 {
        let n = bytes.len() as int;
        let rest = bytes.drop_last();
        let t = s.take(2 * n - 2);
        lemma_hex_chars(rest);
        assert forall|i: int| 0 <= i < t.len() implies t[i] == #[trigger] hex_of(rest)[i] as u8 by {
            assert(hex_of(bytes)[i] == hex_of(rest)[i]);
        }
        lemma_hex_back(t, rest);
        lemma_hex_prefix(s, t, n - 1);
        assert(s[2 * n - 2] == hex_of(bytes)[2 * n - 2] as u8);
        assert(s[2 * n - 1] == hex_of(bytes)[2 * n - 1] as u8);
        assert(hex_pair(s[2 * n - 2], s[2 * n - 1]) == Some(bytes.last()));
        assert(rest.push(bytes.last()) =~= bytes);
    } else {
        assert(bytes =~= Seq::empty());
    }
}

/// The hexadecimal notation of bytes denotes those bytes.
pub proof fn law_hex_round_trip(bytes: Seq<u8>)
    ensures
        hex_decoded(encode_utf8(hex_of(bytes))) == Some(bytes),
{
    let text = hex_of(bytes);
    lemma_hex_chars(bytes);
    assert(is_ascii_chars(text)) by {
        assert forall|i: int| 0 <= i < text.len() implies '\0' <= #[trigger] text[i] <= '\u{7f}' by {
            assert(is_hex_char(text[i]));
        }
    }
    is_ascii_chars_encode_utf8(text);
    let s = encode_utf8(text);
    assert forall|i: int| 0 <= i < s.len() implies s[i] == #[trigger] hex_of(bytes)[i] as u8 by {}
    lemma_hex_back(s, bytes);
}

// ---- Laws ----

/// Every byte is written as two of the sixteen digits, the one that counts sixteen times as much
/// first.
pub proof fn law_bytes_are_two_digits(bytes: Seq<u8>, i: int)
    requires
        0 <= i < bytes.len(),
    ensures
        hex_of(bytes).len() == 2 * bytes.len(),
        hex_of(bytes)[2 * i] == "0123456789abcdef"@[bytes[i] as int / 16],
        hex_of(bytes)[2 * i + 1] == "0123456789abcdef"@[bytes[i] as int % 16],
    decreases bytes.len(),
{
    reveal_strlit("0123456789abcdef");
    lemma_hex_chars(bytes);
    let rest = bytes.drop_last();
    lemma_hex_chars(rest);
    if i < rest.len() {
        law_bytes_are_two_digits(rest, i);
        assert(hex_of(bytes)[2 * i] == hex_of(rest)[2 * i]);
        assert(hex_of(bytes)[2 * i + 1] == hex_of(rest)[2 * i + 1]);
    }
}

/// Two digits are read as one byte, large letters like small ones; an odd number of characters, or
/// one that is no digit, is not read.
pub proof fn law_digits_are_read_in_pairs(a: u8, b: u8)
    ensures
        (hex_decoded(seq![a, b]) is Some) == ((48 <= a <= 57 || 65 <= a <= 70 || 97 <= a <= 102 || a
            == 43) && (48 <= b <= 57 || 65 <= b <= 70 || 97 <= b <= 102)),
        48 <= a <= 57 && 48 <= b <= 57 ==> hex_decoded(seq![a, b]) == Some(
            seq![((a - 48) * 16 + (b - 48)) as u8],
        ),
        97 <= a <= 102 && 97 <= b <= 102 ==> hex_decoded(seq![a, b]) == Some(
            seq![((a - 97 + 10) * 16 + (b - 97 + 10)) as u8],
        ),
        65 <= a <= 70 && 65 <= b <= 70 ==> hex_decoded(seq![a, b]) == hex_decoded(
            seq![(a + 32) as u8, (b + 32) as u8],
        ),
        hex_decoded(seq![a]) is None,
        hex_decoded(Seq::empty()) == Some(Seq::<u8>::empty()),
{
    reveal_with_fuel(hex_bytes, 2);
    let up = seq![(a + 32) as u8, (b + 32) as u8];
    let s = seq![a, b];
    assert(s[2 * 1 - 2] == a && s[2 * 1 - 1] == b);
    assert(up.len() == 2 && s.len() == 2);
    if hex_pair(a, b) is Some {
        assert(Seq::<u8>::empty().push(hex_pair(a, b)->0) =~= seq![hex_pair(a, b)->0]);
    }
}

/// Texts are read one after the other.
pub proof fn law_pairs_are_read_one_by_one(s: Seq<u8>, a: u8, b: u8)
    requires
        s.len() % 2 == 0,
    ensures
        hex_decoded(s + seq![a, b]) == match (hex_decoded(s), hex_decoded(seq![a, b])) {
            (Some(x), Some(y)) => Some(x + y),
            _ => None,
        },
{
    let t = s + seq![a, b];
    let k = s.len() as int / 2;
    lemma_hex_prefix(s, t, k);
    assert(t.len() as int / 2 == k + 1);
    assert(t[2 * k] == a && t[2 * k + 1] == b);
    reveal_with_fuel(hex_bytes, 2);
    let p = seq![a, b];
    assert(p[2 * 1 - 2] == a && p[2 * 1 - 1] == b);
    if hex_bytes(t, k) is Some && hex_pair(a, b) is Some {
        assert(hex_bytes(t, k)->0.push(hex_pair(a, b)->0) =~= hex_bytes(t, k)->0
            + Seq::<u8>::empty().push(hex_pair(a, b)->0));
    }
}

} // verus!
