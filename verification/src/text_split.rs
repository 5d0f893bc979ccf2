//! Taking texts apart: prefixes, separators, fields.

use crate::text::{chars_of, text_of, texts};
use vstd::prelude::*;

verus! {

/// The pieces of a text between the occurrences of a separator; always at least one.
pub open spec fn split(s: Seq<char>, c: char) -> Seq<Seq<char>>
    decreases s.len(),
{
    if s.len() == 0 {
        seq![Seq::empty()]
    } else {
        let rest = split(s.drop_last(), c);
        if s.last() == c {
            rest.push(Seq::empty())
        } else {
            rest.drop_last().push(rest.last().push(s.last()))
        }
    }
}

/// There is always a piece.
pub proof fn lemma_split_len(s: Seq<char>, c: char)
    ensures
        split(s, c).len() >= 1,
    decreases s.len(),
{
    if s.len() > 0 {
        lemma_split_len(s.drop_last(), c);
    }
}

/// No piece holds the separator.
pub proof fn lemma_pieces_hold_no_separator(s: Seq<char>, c: char)
    ensures
        forall|k: int| 0 <= k < split(s, c).len() ==> !(#[trigger] split(s, c)[k]).contains(c),
    decreases s.len(),
{
    if s.len() > 0 {
        let rest = split(s.drop_last(), c);
        lemma_split_len(s.drop_last(), c);
        lemma_pieces_hold_no_separator(s.drop_last(), c);
        assert forall|k: int| 0 <= k < split(s, c).len() implies !(#[trigger] split(s, c)[k]).contains(
            c,
        ) by {
            let piece = split(s, c)[k];
            if piece.contains(c) {
                let i = choose|i: int| 0 <= i < piece.len() && piece[i] == c;
                assert(!rest[rest.len() - 1].contains(c));
                if k < rest.len() - 1 || s.last() == c {
                    assert(piece == rest[k]);
                    assert(!rest[k].contains(c));
                } else {
                    assert(piece == rest.last().push(s.last()));
                    assert(rest.last()[i] == c);
                }
            }
        }
    }
}

/// A text without the separator is one piece.
pub proof fn lemma_split_single(s: Seq<char>, c: char)
    requires
        !s.contains(c),
    ensures
        split(s, c) == seq![s],
    decreases s.len(),
{
    if s.len() == 0 {
        assert(s =~= Seq::empty());
        assert(split(s, c) =~= seq![s]);
    } else {
        let r = s.drop_last();
        assert(!r.contains(c)) by {
            if r.contains(c) {
                let i = choose|i: int| 0 <= i < r.len() && r[i] == c;
                assert(s[i] == c);
            }
        }
        lemma_split_single(r, c);
        assert(s.last() != c) by {
            assert(s[s.len() - 1] == s.last());
        }
        assert(r.push(s.last()) =~= s);
        assert(split(s, c) =~= seq![s]);
    }
}

/// A separator and a text without it behind add that text as the last piece.
pub proof fn lemma_split_append(a: Seq<char>, b: Seq<char>, c: char)
    requires
        !b.contains(c),
    ensures
        split(a + seq![c] + b, c) == split(a, c).push(b),
    decreases b.len(),
{
    let s = a + seq![c] + b;
    if b.len() == 0 {
        assert(s.drop_last() =~= a);
        assert(s.last() == c);
        assert(b =~= Seq::empty());
    } else {
        let b1 = b.drop_last();
        assert(!b1.contains(c)) by {
            if b1.contains(c) {
                let i = choose|i: int| 0 <= i < b1.len() && b1[i] == c;
                assert(b[i] == c);
            }
        }
        lemma_split_append(a, b1, c);
        assert(s.drop_last() =~= a + seq![c] + b1);
        assert(s.last() == b.last());
        assert(b.last() != c) by {
            assert(b[b.len() - 1] == b.last());
        }
        assert(b1.push(b.last()) =~= b);
        assert(split(a, c).push(b1).drop_last() =~= split(a, c));
        assert(split(s, c) =~= split(a, c).push(b));
    }
}

/// The pieces of a text between the occurrences of a separator.
pub fn split_on(s: &str, c: char) -> (r: Vec<String>)
    ensures
        texts(r@) == split(s@, c),
{
    let cs = chars_of(s);
    let mut out: Vec<String> = Vec::new();
    let mut start: usize = 0;
    let mut i: usize = 0;
    proof {
        assert(cs@.take(0) =~= Seq::<char>::empty());
        assert(texts(out@).push(cs@.subrange(0, 0)) =~= split(cs@.take(0), c));
    }
    while i < cs.len()
        invariant
            start <= i <= cs@.len(),
            texts(out@).push(cs@.subrange(start as int, i as int)) == split(cs@.take(i as int), c),
        decreases cs@.len() - i,
    {
        let ghost prior = texts(out@);
        let ghost piece = cs@.subrange(start as int, i as int);
        proof {
            assert(cs@.take(i + 1).drop_last() =~= cs@.take(i as int));
            assert(cs@.take(i + 1).last() == cs@[i as int]);
        }
        if cs[i] == c {
            let ghost before = out@;
            out.push(text_of(&cs, start, i));
            start = i + 1;
            proof {
                assert(texts(out@) =~= prior.push(piece));
                assert(cs@.subrange(start as int, i + 1) =~= Seq::<char>::empty());
            }
        } else {
            proof {
                assert(prior.push(piece).drop_last() =~= prior);
                assert(cs@.subrange(start as int, i + 1) =~= piece.push(cs@[i as int]));
            }
        }
        i = i + 1;
    }
    let ghost prior = texts(out@);
    out.push(text_of(&cs, start, i));
    proof {
        assert(cs@.take(i as int) =~= s@);
        assert(texts(out@) =~= prior.push(cs@.subrange(start as int, i as int)));
    }
    out
}

/// Whether a text starts with another.
pub open spec fn starts_with(s: Seq<char>, prefix: Seq<char>) -> bool {
    prefix.len() <= s.len() && s.subrange(0, prefix.len() as int) == prefix
}

/// Whether a text starts with another.
pub fn has_prefix(s: &str, prefix: &str) -> (r: bool)
    ensures
        r == starts_with(s@, prefix@),
{
    let a = chars_of(s);
    let b = chars_of(prefix);
    if b.len() > a.len() {
        return false;
    }
    let mut i: usize = 0;
    while i < b.len()
        invariant
            i <= b@.len() <= a@.len(),
            a@ == s@,
            b@ == prefix@,
            forall|k: int| 0 <= k < i ==> a@[k] == b@[k],
        decreases b@.len() - i,
    {
        if a[i] != b[i] {
            assert(s@.subrange(0, prefix@.len() as int)[i as int] != prefix@[i as int]);
            return false;
        }
        i = i + 1;
    }
    assert(s@.subrange(0, prefix@.len() as int) =~= prefix@);
    true
}

/// What follows the first `n` characters of a text.
pub fn text_after(s: &str, n: usize) -> (r: String)
    requires
        n <= s@.len(),
    ensures
        r@ == s@.subrange(n as int, s@.len() as int),
{
    let cs = chars_of(s);
    text_of(&cs, n, cs.len())
}

/// The first place at or after `i` at which a character stands.
pub open spec fn find_char(s: Seq<char>, c: char, i: int) -> Option<int>
    decreases s.len() - i,
{
    if i < 0 || i >= s.len() {
        None
    } else if s[i] == c {
        Some(i)
    } else {
        find_char(s, c, i + 1)
    }
}

/// The first place at or after `from` at which a character stands.
pub fn find_char_from(cs: &Vec<char>, c: char, from: usize) -> (r: Option<usize>)
    requires
        from <= cs@.len(),
    ensures
        match r {
            Some(p) => find_char(cs@, c, from as int) == Some(p as int) && from <= p < cs@.len()
                && cs@[p as int] == c,
            None => find_char(cs@, c, from as int) is None,
        },
{
    let mut i: usize = from;
    while i < cs.len()
        invariant
            from <= i <= cs@.len(),
            find_char(cs@, c, from as int) == find_char(cs@, c, i as int),
        decreases cs@.len() - i,
    {
        if cs[i] == c {
            return Some(i);
        }
        i = i + 1;
    }
    None
}

/// The value of the last of the first `k` fields that starts with a prefix, without the prefix;
/// empty where there is none.
pub open spec fn last_field(fields: Seq<Seq<char>>, prefix: Seq<char>, k: int) -> Seq<char>
    decreases k,
{
    if k <= 0 {
        Seq::empty()
    } else if starts_with(fields[k - 1], prefix) {
        fields[k - 1].subrange(prefix.len() as int, fields[k - 1].len() as int)
    } else {
        last_field(fields, prefix, k - 1)
    }
}

/// The value of the last field that starts with a prefix, without the prefix.
pub fn last_field_of(fields: &Vec<String>, prefix: &str, prefix_len: usize) -> (r: String)
    requires
        prefix_len == prefix@.len(),
    ensures
        r@ == last_field(texts(fields@), prefix@, fields@.len() as int),
{
    let ghost all = texts(fields@);
    let mut k: usize = fields.len();
    while k > 0
        invariant
            k <= fields@.len(),
            prefix_len == prefix@.len(),
            all == texts(fields@),
            last_field(all, prefix@, fields@.len() as int) == last_field(all, prefix@, k as int),
        decreases k,
    {
        assert(all[k - 1] == fields@[k - 1]@);
        if has_prefix(fields[k - 1].as_str(), prefix) {
            return text_after(fields[k - 1].as_str(), prefix_len);
        }
        k = k - 1;
    }
    let r = String::new();
    assert(r@ =~= Seq::<char>::empty());
    r
}

// ---- Laws ----

/// A character is found at its first place at or after the one where the search starts, and nowhere
/// where there is none.
pub proof fn law_first_place_is_found(s: Seq<char>, c: char, i: int, p: int)
    requires
        0 <= i <= s.len(),
    ensures
        find_char(s, c, i) == Some(p) <==> i <= p < s.len() && s[p] == c && forall|k: int|
            i <= k < p ==> s[k] != c,
        find_char(s, c, i) is None <==> !s.skip(i).contains(c),
    decreases s.len() - i,
{
    let rest = s.skip(i);
    if i < s.len() {
        assert(rest[0] == s[i]);
        if s[i] != c {
            law_first_place_is_found(s, c, i + 1, p);
            let less = s.skip(i + 1);
            if rest.contains(c) {
                let k = choose|k: int| 0 <= k < rest.len() && rest[k] == c;
                assert(less[k - 1] == rest[k]);
            }
            if less.contains(c) {
                let k = choose|k: int| 0 <= k < less.len() && less[k] == c;
                assert(rest[k + 1] == less[k]);
            }
        } else {
            assert(rest.contains(rest[0]));
        }
    }
}

/// A text between two separators is a piece, whatever stands on both sides: taking a text apart and
/// putting a separator between the pieces are each other's inverse.
pub proof fn law_separators_part_the_pieces(a: Seq<char>, b: Seq<char>, c: char)
    ensures
        split(a + seq![c] + b, c) == split(a, c) + split(b, c),
        !a.contains(c) ==> split(a, c) == seq![a],
    decreases b.len(),
{
    if !a.contains(c) {
        lemma_split_single(a, c);
    }
    lemma_split_len(b, c);
    let s = a + seq![c] + b;
    if b.len() == 0 {
        assert(s.drop_last() =~= a);
        assert(split(s, c) =~= split(a, c) + split(b, c));
    } else {
        let r = b.drop_last();
        lemma_split_len(r, c);
        law_separators_part_the_pieces(a, r, c);
        assert(s.drop_last() =~= a + seq![c] + r);
        assert(split(s, c) =~= split(a, c) + split(b, c));
    }
}

/// A text starts with another where something follows the other to make it up.
pub proof fn law_prefix_and_rest(prefix: Seq<char>, rest: Seq<char>, s: Seq<char>)
    ensures
        starts_with(prefix + rest, prefix),
        starts_with(s, prefix) ==> s == prefix + s.skip(prefix.len() as int),
{
    assert((prefix + rest).subrange(0, prefix.len() as int) =~= prefix);
    if starts_with(s, prefix) {
        assert(s =~= s.subrange(0, prefix.len() as int) + s.skip(prefix.len() as int));
    }
}

/// The last field with a prefix gives what follows the prefix, whatever stands before it.
pub proof fn law_last_field_counts(
    a: Seq<Seq<char>>,
    prefix: Seq<char>,
    value: Seq<char>,
    b: Seq<Seq<char>>,
)
    requires
        forall|i: int|
            0 <= i < b.len() ==> !((#[trigger] b[i]).len() >= prefix.len() && b[i].take(
                prefix.len() as int,
            ) == prefix),
    ensures
        ({
            let fields = a + seq![prefix + value] + b;
            last_field(fields, prefix, fields.len() as int) == value
        }),
        last_field(b, prefix, b.len() as int) == Seq::<char>::empty(),
{
    let fields = a + seq![prefix + value] + b;
    let n = a.len() + 1;
    lemma_fields_without(fields, prefix, n as int, b);
    lemma_fields_without(b, prefix, 0, b);
    let f = fields[n - 1];
    assert(f == prefix + value);
    assert(f.subrange(0, prefix.len() as int) =~= prefix);
    assert(f.subrange(prefix.len() as int, f.len() as int) =~= value);
}

proof fn lemma_fields_without(fields: Seq<Seq<char>>, prefix: Seq<char>, n: int, b: Seq<Seq<char>>)
    requires
        0 <= n,
        n + b.len() == fields.len(),
        forall|i: int| 0 <= i < b.len() ==> #[trigger] fields[n + i] == b[i],
        forall|i: int|
            0 <= i < b.len() ==> !((#[trigger] b[i]).len() >= prefix.len() && b[i].take(
                prefix.len() as int,
            ) == prefix),
    ensures
        last_field(fields, prefix, fields.len() as int) == last_field(fields, prefix, n),
{
    lemma_fields_down(fields, prefix, n, b, fields.len() as int);
}

proof fn lemma_fields_down(
    fields: Seq<Seq<char>>,
    prefix: Seq<char>,
    n: int,
    b: Seq<Seq<char>>,
    k: int,
)
    requires
        0 <= n <= k <= fields.len(),
        n + b.len() == fields.len(),
        forall|i: int| 0 <= i < b.len() ==> #[trigger] fields[n + i] == b[i],
        forall|i: int|
            0 <= i < b.len() ==> !((#[trigger] b[i]).len() >= prefix.len() && b[i].take(
                prefix.len() as int,
            ) == prefix),
    ensures
        last_field(fields, prefix, k) == last_field(fields, prefix, n),
    decreases k,
{
    if k > n {
        lemma_fields_down(fields, prefix, n, b, k - 1);
        let i = k - 1 - n;
        assert(fields[n + i] == b[i]);
        if b[i].len() >= prefix.len() {
            assert(b[i].take(prefix.len() as int) =~= b[i].subrange(0, prefix.len() as int));
        }
    }
}

} // verus!
