//! Text helpers: concatenation, decimal and hexadecimal notation, comparison.

use vstd::arithmetic::div_mod::lemma_div_denominator;
use vstd::arithmetic::power::{lemma_pow0, lemma_pow_positive, pow};
use vstd::prelude::*;
use vstd::std_specs::iter::IteratorSpec;
use vstd::string::*;
use vstd::utf8::{decode_utf8, valid_utf8};

verus! {

/// The texts held by a list of strings.
pub open spec fn texts(v: Seq<String>) -> Seq<Seq<char>> {
    Seq::new(v.len(), |i: int| v[i]@)
}

/// The text of an optional string.
pub open spec fn opt_text(o: Option<String>) -> Option<Seq<char>> {
    match o {
        Some(s) => Some(s@),
        None => None,
    }
}

/// The text of an optional string slice.
pub open spec fn opt_str(o: Option<&str>) -> Option<Seq<char>> {
    match o {
        Some(s) => Some(s@),
        None => None,
    }
}

/// Whether two texts are equal.
pub fn same_text(a: &str, b: &str) -> (r: bool)
    ensures
        r == (a@ == b@),
{
    a.to_owned() == b.to_owned()
}

/// Whether an optional text is present and equals `b`.
pub fn opt_is(a: &Option<String>, b: &str) -> (r: bool)
    ensures
        r == (opt_text(*a) == Some(b@)),
{
    match a {
        Some(s) => same_text(s.as_str(), b),
        None => false,
    }
}

/// A copy of an optional string.
pub fn copy_opt(a: &Option<String>) -> (r: Option<String>)
    ensures
        r == *a,
{
    match a {
        Some(s) => Some(s.clone()),
        None => None,
    }
}

/// A copy of a list of strings.
pub fn copy_texts(v: &Vec<String>) -> (r: Vec<String>)
    ensures
        r@ == v@,
{
    let mut out: Vec<String> = Vec::new();
    let mut i: usize = 0;
    while i < v.len()
        invariant
            i <= v.len(),
            out@ == v@.subrange(0, i as int),
        decreases v.len() - i,
    {
        out.push(v[i].clone());
        i = i + 1;
        assert(out@ =~= v@.subrange(0, i as int));
    }
    assert(out@ =~= v@);
    out
}

/// Whether `needle` is one of the texts of `v`.
pub fn contains_text(v: &Vec<String>, needle: &str) -> (r: bool)
    ensures
        r == texts(v@).contains(needle@),
{
    let mut i: usize = 0;
    while i < v.len()
        invariant
            i <= v.len(),
            forall|k: int| 0 <= k < i ==> texts(v@)[k] != needle@,
        decreases v.len() - i,
    {
        if same_text(v[i].as_str(), needle) {
            assert(texts(v@)[i as int] == needle@);
            return true;
        }
        i = i + 1;
    }
    false
}

/// Appends one character.
///
/// Trusted: `String::push` appends the character at the end of the string.
#[verifier::external_body]
pub(crate) fn push_char(out: &mut String, c: char)
    ensures
        final(out)@ == old(out)@.push(c),
{
    out.push(c)
}

/// The text that a byte string encodes in UTF-8, if it encodes one.
///
/// Trusted: `String::from_utf8` succeeds on valid UTF-8 and gives the text it encodes.
#[verifier::external_body]
pub(crate) fn text_from_utf8(bytes: Vec<u8>) -> (r: Option<String>)
    ensures
        r is Some == valid_utf8(bytes@),
        r is Some ==> r->0@ == decode_utf8(bytes@),
{
    String::from_utf8(bytes).ok()
}

/// The characters of a text.
pub fn chars_of(s: &str) -> (r: Vec<char>)
    ensures
        r@ == s@,
{
    let mut out: Vec<char> = Vec::new();
    let n = s.unicode_len();
    let mut it = s.chars();
    let mut i: usize = 0;
    while i < n
        invariant
            i <= n,
            n == s@.len(),
            it.obeys_prophetic_iter_laws(),
            it.remaining() == s@.subrange(i as int, s@.len() as int),
            out@ == s@.subrange(0, i as int),
        decreases n - i,
    {
        let c = it.next();
        match c {
            Some(ch) => {
                out.push(ch);
            },
            None => {},
        }
        i = i + 1;
        assert(out@ =~= s@.subrange(0, i as int));
        assert(it.remaining() =~= s@.subrange(i as int, s@.len() as int));
    }
    assert(out@ =~= s@);
    out
}

/// The text made of the characters `v[from..to]`.
pub fn text_of(v: &Vec<char>, from: usize, to: usize) -> (r: String)
    requires
        from <= to <= v.len(),
    ensures
        r@ == v@.subrange(from as int, to as int),
{
    let mut out = String::new();
    let mut i: usize = from;
    while i < to
        invariant
            from <= i <= to <= v.len(),
            out@ == v@.subrange(from as int, i as int),
        decreases to - i,
    {
        push_char(&mut out, v[i]);
        i = i + 1;
        assert(out@ =~= v@.subrange(from as int, i as int));
    }
    out
}

/// The decimal digit that stands for `d`, for `d` below ten.
pub open spec fn digit(d: nat) -> char {
    (48 + d) as u8 as char
}

/// The decimal notation of a natural number, without leading zeros.
pub open spec fn dec(n: nat) -> Seq<char>
    decreases n,
{
    if n < 10 {
        seq![digit(n)]
    } else {
        dec(n / 10).push(digit(n % 10))
    }
}

/// Appends the decimal notation of `n`.
pub fn push_dec(out: &mut String, n: u64)
    ensures
        final(out)@ == old(out)@ + dec(n as nat),
    decreases n,
{
    let ghost start = out@;
    if n >= 10 {
        push_dec(out, n / 10);
    }
    let c = (48u8 + (n % 10) as u8) as char;
    push_char(out, c);
    proof {
        if n >= 10 {
            assert(out@ =~= start + dec(n as nat));
        } else {
            assert(out@ =~= start + dec(n as nat));
        }
    }
}

/// The decimal notation of `n`.
pub fn dec_text(n: u64) -> (r: String)
    ensures
        r@ == dec(n as nat),
{
    let mut out = String::new();
    push_dec(&mut out, n);
    assert(out@ =~= dec(n as nat));
    out
}

/// The decimal value of a character, if it is a decimal digit.
pub open spec fn digit_value(c: char) -> Option<nat> {
    if '0' <= c && c <= '9' {
        Some((c as u32 - 48) as nat)
    } else {
        None
    }
}

/// The number that a string of decimal digits denotes; `None` if a character is no digit.
pub open spec fn digits_value(s: Seq<char>) -> Option<nat>
    decreases s.len(),
{
    if s.len() == 0 {
        Some(0)
    } else {
        match (digits_value(s.drop_last()), digit_value(s.last())) {
            (Some(hi), Some(lo)) => Some(hi * 10 + lo),
            _ => None,
        }
    }
}

/// What `str::parse::<u32>` reads: digits, at least one, after an optional plus sign, that
/// denote a number below two to the power of thirty-two.
pub open spec fn parsed_u32(s: Seq<char>) -> Option<u32> {
    let body = if s.len() > 0 && s[0] == '+' {
        s.subrange(1, s.len() as int)
    } else {
        s
    };
    match digits_value(body) {
        Some(n) => if body.len() > 0 && n <= u32::MAX {
            Some(n as u32)
        } else {
            None
        },
        None => None,
    }
}

/// A prefix that is no number, or one too large, makes the whole no number, or one too large.
proof fn lemma_digits_prefix(s: Seq<char>, k: int)
    requires
        0 <= k <= s.len(),
        digits_value(s) is Some,
    ensures
        digits_value(s.subrange(0, k)) is Some,
        digits_value(s.subrange(0, k))->0 <= digits_value(s)->0,
    decreases s.len() - k,
{
    if k == s.len() {
        assert(s.subrange(0, k) =~= s);
    } else {
        lemma_digits_prefix(s, k + 1);
        let t = s.subrange(0, k + 1);
        assert(t.drop_last() =~= s.subrange(0, k));
    }
}

/// Reads a decimal number as `str::parse::<u32>` does.
pub fn parse_u32(s: &str) -> (r: Option<u32>)
    ensures
        r == parsed_u32(s@),
{
    let cs = chars_of(s);
    let start: usize = if cs.len() > 0 && cs[0] == '+' {
        1
    } else {
        0
    };
    let ghost body = s@.subrange(start as int, s@.len() as int);
    proof {
        if start == 0 {
            assert(body =~= s@);
        }
    }
    if start == cs.len() {
        return None;
    }
    let mut n: u32 = 0;
    let mut i: usize = start;
    proof {
        assert(body.subrange(0, 0) =~= Seq::<char>::empty());
    }
    while i < cs.len()
        invariant
            start <= i <= cs.len(),
            cs@ == s@,
            body == cs@.subrange(start as int, cs@.len() as int),
            digits_value(body.subrange(0, i - start)) == Some(n as nat),
            start == 1 ==> s@.len() > 0 && s@[0] == '+',
            start == 0 ==> !(s@.len() > 0 && s@[0] == '+'),
            start < cs.len(),
            start <= 1,
            start == 0 ==> body == s@,
        decreases cs.len() - i,
    {
        let c = cs[i];
        let ghost pre = body.subrange(0, i - start);
        let ghost ext = body.subrange(0, i - start + 1);
        proof {
            assert(ext.drop_last() =~= pre);
            assert(ext.last() == c);
            if digits_value(body) is Some {
                lemma_digits_prefix(body, i - start + 1);
            }
        }
        if !('0' <= c && c <= '9') {
            return None;
        }
        let d: u32 = c as u32 - 48;
        if n > 429496729 || (n == 429496729 && d > 5) {
            return None;
        }
        n = n * 10 + d;
        i = i + 1;
    }
    proof {
        assert(body.subrange(0, cs.len() - start) =~= body);
    }
    Some(n)
}

/// The decimal notation of a number denotes that number and is not empty.
pub proof fn lemma_dec_value(n: nat)
    ensures
        digits_value(dec(n)) == Some(n),
        dec(n).len() > 0,
        dec(n)[0] != '+',
    decreases n,
{
    if n < 10 {
        let s = dec(n);
        assert(s.drop_last() =~= Seq::<char>::empty());
        assert(digit_value(digit(n)) == Some(n));
        assert(digits_value(s.drop_last()) == Some(0nat));
    } else {
        lemma_dec_value(n / 10);
        let s = dec(n);
        assert(s.drop_last() =~= dec(n / 10));
        assert(digit_value(digit(n % 10)) == Some(n % 10));
        assert(s[0] == dec(n / 10)[0]);
    }
}

/// Reading back the decimal notation of a number gives the number.
pub proof fn law_parse_undoes_decimal(n: u32)
    ensures
        parsed_u32(dec(n as nat)) == Some(n),
{
    lemma_dec_value(n as nat);
}

/// Whether a text comes before another in the order of Unicode code points, which is also
/// the order of the UTF-8 encodings.
pub open spec fn text_lt(a: Seq<char>, b: Seq<char>) -> bool
    decreases a.len(),
{
    if b.len() == 0 {
        false
    } else if a.len() == 0 {
        true
    } else if a[0] == b[0] {
        text_lt(a.drop_first(), b.drop_first())
    } else {
        a[0] < b[0]
    }
}

/// Whether `a` comes before `b`.
pub fn text_before(a: &str, b: &str) -> (r: bool)
    ensures
        r == text_lt(a@, b@),
{
    let x = chars_of(a);
    let y = chars_of(b);
    let mut i: usize = 0;
    proof {
        assert(x@.subrange(0, x@.len() as int) =~= x@);
        assert(y@.subrange(0, y@.len() as int) =~= y@);
    }
    while i < x.len() && i < y.len()
        invariant
            i <= x.len(),
            i <= y.len(),
            x@ == a@,
            y@ == b@,
            text_lt(a@, b@) == text_lt(
                x@.subrange(i as int, x@.len() as int),
                y@.subrange(i as int, y@.len() as int),
            ),
        decreases x.len() - i,
    {
        let ghost xs = x@.subrange(i as int, x@.len() as int);
        let ghost ys = y@.subrange(i as int, y@.len() as int);
        proof {
            assert(xs.drop_first() =~= x@.subrange(i + 1, x@.len() as int));
            assert(ys.drop_first() =~= y@.subrange(i + 1, y@.len() as int));
        }
        if x[i] != y[i] {
            return x[i] < y[i];
        }
        i = i + 1;
    }
    i < y.len()
}

/// The order of texts is irreflexive.
pub proof fn lemma_text_lt_irreflexive(a: Seq<char>)
    ensures
        !text_lt(a, a),
    decreases a.len(),
{
    if a.len() > 0 {
        lemma_text_lt_irreflexive(a.drop_first());
    }
}

/// The order of texts is transitive.
pub proof fn lemma_text_lt_transitive(a: Seq<char>, b: Seq<char>, c: Seq<char>)
    requires
        text_lt(a, b),
        text_lt(b, c),
    ensures
        text_lt(a, c),
    decreases a.len(),
{
    if a.len() > 0 && b.len() > 0 && c.len() > 0 {
        if a[0] == b[0] && b[0] == c[0] {
            lemma_text_lt_transitive(a.drop_first(), b.drop_first(), c.drop_first());
        }
    }
}

/// Of two different texts one comes before the other.
pub proof fn lemma_text_lt_total(a: Seq<char>, b: Seq<char>)
    requires
        a != b,
    ensures
        text_lt(a, b) || text_lt(b, a),
    decreases a.len(),
{
    if a.len() > 0 && b.len() > 0 {
        if a[0] == b[0] {
            if a.drop_first() == b.drop_first() {
                assert(a =~= seq![a[0]] + a.drop_first());
                assert(b =~= seq![b[0]] + b.drop_first());
            } else {
                lemma_text_lt_total(a.drop_first(), b.drop_first());
            }
        }
    } else {
        assert(a.len() == 0 && b.len() == 0 ==> a =~= b);
    }
}

// ---- Laws ----

/// The order of texts is that of the first characters in which they differ; a text comes before
/// those that it is the beginning of.
pub proof fn law_first_difference_decides(p: Seq<char>, a: char, b: char, x: Seq<char>, y: Seq<char>)
    ensures
        a < b ==> text_lt(p + seq![a] + x, p + seq![b] + y),
        a < b ==> !text_lt(p + seq![b] + y, p + seq![a] + x),
        text_lt(p, p + seq![a] + x),
        !text_lt(p + seq![a] + x, p),
        !text_lt(p, p),
    decreases p.len(),
{
    let s = p + seq![a] + x;
    let t = p + seq![b] + y;
    if p.len() > 0 {
        let q = p.drop_first();
        law_first_difference_decides(q, a, b, x, y);
        assert(s.drop_first() =~= q + seq![a] + x);
        assert(t.drop_first() =~= q + seq![b] + y);
        assert(s[0] == p[0] && t[0] == p[0]);
    } else {
        assert(s[0] == a && t[0] == b);
    }
}

/// A number is written with its decimal digits, the one that counts least last, without a zero in
/// front.
pub proof fn law_digits_count_by_their_place(n: nat, i: int)
    requires
        0 <= i < dec(n).len(),
    ensures
        dec(n)[dec(n).len() - 1 - i] as int == '0' as int + (n as int / pow(10, i as nat)) % 10,
        n > 0 ==> dec(n)[0] != '0',
        n < pow(10, dec(n).len()),
    decreases n,
{
    lemma_pow_positive(10, i as nat);
    reveal(pow);
    if n < 10 {
        reveal_with_fuel(pow, 2);
        lemma_pow0(10);
        assert(pow(10, 1) == 10);
    } else {
        let m = n / 10;
        if i > 0 {
            law_digits_count_by_their_place(m, i - 1);
            lemma_pow_positive(10, (i - 1) as nat);
            assert(pow(10, i as nat) == 10 * pow(10, (i - 1) as nat));
            lemma_div_denominator(n as int, 10, pow(10, (i - 1) as nat));
            assert(dec(n)[dec(n).len() - 1 - i] == dec(m)[dec(m).len() - 1 - (i - 1)]);
        } else {
            lemma_pow0(10);
            law_digits_count_by_their_place(m, 0);
        }
        assert(dec(n)[0] == dec(m)[0]);
        assert(pow(10, dec(n).len()) == 10 * pow(10, dec(m).len()));
    }
}

/// Digits, with a plus sign in front or without, are read as the number they denote; anything else,
/// and a number of more than thirty-two bits, is not read.
pub proof fn law_numbers_are_read(s: Seq<char>, c: char, n: nat)
    ensures
        s.len() > 0 && s[0] != '+' ==> parsed_u32(seq!['+'] + s) == parsed_u32(s),
        parsed_u32(Seq::empty()) is None,
        parsed_u32(seq!['+']) is None,
        !('0' <= c <= '9') && c != '+' ==> parsed_u32(s.push(c)) is None,
        n > u32::MAX ==> parsed_u32(dec(n)) is None,
        digits_value(dec(n)) == Some(n),
{
    lemma_dec_value(n);
    let p = seq!['+'] + s;
    assert(p.subrange(1, p.len() as int) =~= s);
    let one = seq!['+'];
    assert(one.subrange(1, 1) =~= Seq::<char>::empty());
    let t = s.push(c);
    if t[0] == '+' && s.len() > 0 {
        let body = t.subrange(1, t.len() as int);
        assert(body.last() == c);
    } else {
        assert(t.last() == c);
    }
}

} // verus!
