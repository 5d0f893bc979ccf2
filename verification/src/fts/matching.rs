//! How query terms are compared with index terms: edit distance and wildcards.

use crate::text::chars_of;
use vstd::prelude::*;

verus! {

pub open spec fn smaller(a: nat, b: nat) -> nat {
    if a < b {
        a
    } else {
        b
    }
}

/// The Levenshtein distance: how many characters have to be put in, taken out or exchanged to
/// turn one text into the other.
pub open spec fn distance(a: Seq<char>, b: Seq<char>) -> nat
    decreases a.len() + b.len(),
{
    if a.len() == 0 {
        b.len()
    } else if b.len() == 0 {
        a.len()
    } else {
        let exchanged = distance(a.drop_last(), b.drop_last()) + if a.last() == b.last() {
            0nat
        } else {
            1nat
        };
        smaller(
            exchanged,
            smaller(distance(a.drop_last(), b) + 1, distance(a, b.drop_last()) + 1),
        )
    }
}

proof fn lemma_distance_bound(a: Seq<char>, b: Seq<char>)
    ensures
        distance(a, b) <= a.len() + b.len(),
    decreases a.len() + b.len(),
{
    if a.len() > 0 && b.len() > 0 {
        lemma_distance_bound(a.drop_last(), b);
    }
}

/// The Levenshtein distance of two texts.
pub fn levenshtein_distance(a: &str, b: &str) -> (r: usize)
    ensures
        r == distance(a@, b@),
{
    let x = chars_of(a);
    let y = chars_of(b);
    let m: usize = x.len();
    let n: usize = y.len();
    let mut prev: Vec<u128> = Vec::new();
    let mut j: usize = 0;
    assert(x@.take(0) =~= Seq::<char>::empty());
    prev.push(0);
    while j < n
        invariant
            j <= n,
            n == y@.len(),
            prev@.len() == j + 1,
            forall|k: int|
                0 <= k <= j ==> #[trigger] prev@[k] == distance(x@.take(0), y@.take(k)),
            x@.take(0).len() == 0,
        decreases n - j,
    {
        j = j + 1;
        prev.push(j as u128);
    }
    let mut i: usize = 0;
    while i < m
        invariant
            i <= m,
            m == x@.len(),
            n == y@.len(),
            prev@.len() == n + 1,
            forall|k: int|
                0 <= k <= n ==> #[trigger] prev@[k] == distance(x@.take(i as int), y@.take(k)),
        decreases x@.len() - i,
    {
        let mut curr: Vec<u128> = Vec::new();
        curr.push(i as u128 + 1);
        let ghost row = x@.take(i + 1);
        proof {
            assert(y@.take(0) =~= Seq::<char>::empty());
            assert(row.drop_last() =~= x@.take(i as int));
        }
        let mut j: usize = 0;
        while j < n
            invariant
                j <= n,
                i < m,
                m == x@.len(),
                n == y@.len(),
                row == x@.take(i + 1),
                row.drop_last() == x@.take(i as int),
                prev@.len() == n + 1,
                curr@.len() == j + 1,
                forall|k: int|
                    0 <= k <= n ==> #[trigger] prev@[k] == distance(x@.take(i as int), y@.take(k)),
                forall|k: int| 0 <= k <= j ==> #[trigger] curr@[k] == distance(row, y@.take(k)),
            decreases n - j,
        {
            proof {
                let col = y@.take(j + 1);
                assert(col.drop_last() =~= y@.take(j as int));
                assert(row.last() == x@[i as int]);
                assert(col.last() == y@[j as int]);
                lemma_distance_bound(x@.take(i as int), y@.take(j as int));
                lemma_distance_bound(x@.take(i as int), col);
                lemma_distance_bound(row, y@.take(j as int));
                assert(prev@[j as int] == distance(x@.take(i as int), y@.take(j as int)));
                assert(prev@[j + 1] == distance(x@.take(i as int), y@.take(j + 1)));
                assert(curr@[j as int] == distance(row, y@.take(j as int)));
            }
            let cost: u128 = if x[i] == y[j] {
                0
            } else {
                1
            };
            let exchanged: u128 = prev[j] + cost;
            let taken_out: u128 = prev[j + 1] + 1;
            let put_in: u128 = curr[j] + 1;
            let mut best: u128 = exchanged;
            if taken_out < best {
                best = taken_out;
            }
            if put_in < best {
                best = put_in;
            }
            curr.push(best);
            j = j + 1;
        }
        prev = curr;
        i = i + 1;
    }
    assert(x@.take(i as int) =~= x@);
    assert(y@.take(n as int) =~= y@);
    assert(prev@[n as int] == distance(x@, y@));
    proof {
        law_distance_is_bounded(x@, y@);
    }
    prev[n] as usize
}

/// Whether a text matches a pattern: a star stands for any characters, a question mark for one.
pub open spec fn matches_pattern(p: Seq<char>, t: Seq<char>) -> bool
    decreases p.len() + t.len(),
{
    if p.len() == 0 {
        t.len() == 0
    } else if p[0] == '*' {
        matches_pattern(p.drop_first(), t) || (t.len() > 0 && matches_pattern(p, t.drop_first()))
    } else {
        t.len() > 0 && (p[0] == '?' || p[0] == t[0]) && matches_pattern(
            p.drop_first(),
            t.drop_first(),
        )
    }
}

fn match_from(p: &Vec<char>, i: usize, t: &Vec<char>, j: usize) -> (r: bool)
    requires
        i <= p@.len(),
        j <= t@.len(),
    ensures
        r == matches_pattern(
            p@.subrange(i as int, p@.len() as int),
            t@.subrange(j as int, t@.len() as int),
        ),
    decreases (p@.len() - i) + (t@.len() - j),
{
    let ghost ps = p@.subrange(i as int, p@.len() as int);
    let ghost ts = t@.subrange(j as int, t@.len() as int);
    if i == p.len() {
        return j == t.len();
    }
    proof {
        assert(ps.drop_first() =~= p@.subrange(i + 1, p@.len() as int));
        if j < t@.len() {
            assert(ts.drop_first() =~= t@.subrange(j + 1, t@.len() as int));
        }
    }
    if p[i] == '*' {
        return match_from(p, i + 1, t, j) || (j < t.len() && match_from(p, i, t, j + 1));
    }
    j < t.len() && (p[i] == '?' || p[i] == t[j]) && match_from(p, i + 1, t, j + 1)
}

/// Whether a text matches a pattern with stars and question marks.
pub fn wildcard_match(pattern: &str, text: &str) -> (r: bool)
    ensures
        r == matches_pattern(pattern@, text@),
{
    let p = chars_of(pattern);
    let t = chars_of(text);
    assert(p@.subrange(0, p@.len() as int) =~= p@);
    assert(t@.subrange(0, t@.len() as int) =~= t@);
    match_from(&p, 0, &t, 0)
}

/// Whether a character of a simple regular expression stands for a character: a dot for any, others
/// for themselves.
pub open spec fn stands_for(p: char, c: char) -> bool {
    p == '.' || p == c
}

/// Whether a text matches a simple regular expression: a dot stands for any character, and a
/// character followed by a star may occur any number of times, also not at all. A star with no
/// character before it to repeat stands for any characters.
pub open spec fn regex_matches(p: Seq<char>, t: Seq<char>) -> bool
    decreases p.len() + t.len(),
{
    if p.len() == 0 {
        t.len() == 0
    } else if p[0] == '*' {
        regex_matches(p.drop_first(), t) || (t.len() > 0 && regex_matches(p, t.drop_first()))
    } else if p.len() > 1 && p[1] == '*' {
        regex_matches(p.skip(2), t) || (t.len() > 0 && stands_for(p[0], t[0]) && regex_matches(
            p,
            t.drop_first(),
        ))
    } else {
        t.len() > 0 && stands_for(p[0], t[0]) && regex_matches(p.drop_first(), t.drop_first())
    }
}

fn regex_from(p: &Vec<char>, i: usize, t: &Vec<char>, j: usize) -> (r: bool)
    requires
        i <= p@.len(),
        j <= t@.len(),
    ensures
        r == regex_matches(p@.skip(i as int), t@.skip(j as int)),
    decreases (p@.len() - i) + (t@.len() - j),
{
    let ghost ps = p@.skip(i as int);
    let ghost ts = t@.skip(j as int);
    if i == p.len() {
        return j == t.len();
    }
    proof {
        assert(ps.drop_first() =~= p@.skip(i + 1));
        if j < t@.len() {
            assert(ts.drop_first() =~= t@.skip(j + 1));
        }
    }
    if p[i] == '*' {
        return regex_from(p, i + 1, t, j) || (j < t.len() && regex_from(p, i, t, j + 1));
    }
    let first: bool = j < t.len() && (p[i] == '.' || p[i] == t[j]);
    if p.len() - i > 1 && p[i + 1] == '*' {
        assert(ps.skip(2) =~= p@.skip(i + 2));
        return regex_from(p, i + 2, t, j) || (first && regex_from(p, i, t, j + 1));
    }
    first && regex_from(p, i + 1, t, j + 1)
}

/// Whether a text matches a simple regular expression: a dot stands for any character, and a star
/// for any number of the character before it, or for any characters where there is none.
pub fn simple_regex_match(pattern: &str, text: &str) -> (r: bool)
    ensures
        r == regex_matches(pattern@, text@),
{
    let p = chars_of(pattern);
    let t = chars_of(text);
    assert(p@.skip(0) =~= p@);
    assert(t@.skip(0) =~= t@);
    regex_from(&p, 0, &t, 0)
}

// ---- Laws ----

/// The distance of a text from itself is zero.
pub proof fn law_distance_to_itself(a: Seq<char>)
    ensures
        distance(a, a) == 0,
    decreases a.len(),
{
    if a.len() > 0 {
        law_distance_to_itself(a.drop_last());
    }
}

/// Only equal texts have distance zero.
pub proof fn law_distance_zero_means_equal(a: Seq<char>, b: Seq<char>)
    requires
        distance(a, b) == 0,
    ensures
        a == b,
    decreases a.len() + b.len(),
{
    if a.len() > 0 && b.len() > 0 {
        law_distance_zero_means_equal(a.drop_last(), b.drop_last());
        assert(a =~= a.drop_last().push(a.last()));
        assert(b =~= b.drop_last().push(b.last()));
    } else {
        assert(a =~= b);
    }
}

/// The distance is the same in both directions.
pub proof fn law_distance_is_symmetric(a: Seq<char>, b: Seq<char>)
    ensures
        distance(a, b) == distance(b, a),
    decreases a.len() + b.len(),
{
    if a.len() > 0 && b.len() > 0 {
        law_distance_is_symmetric(a.drop_last(), b.drop_last());
        law_distance_is_symmetric(a.drop_last(), b);
        law_distance_is_symmetric(a, b.drop_last());
    }
}

/// The distance is at least the difference of the lengths, and at most the longer length.
pub proof fn law_distance_is_bounded(a: Seq<char>, b: Seq<char>)
    ensures
        distance(a, b) >= a.len() - b.len(),
        distance(a, b) >= b.len() - a.len(),
        distance(a, b) <= a.len() || distance(a, b) <= b.len(),
    decreases a.len() + b.len(),
{
    if a.len() > 0 && b.len() > 0 {
        law_distance_is_bounded(a.drop_last(), b.drop_last());
        law_distance_is_bounded(a.drop_last(), b);
        law_distance_is_bounded(a, b.drop_last());
    }
}

/// A detour is never shorter than the direct way.
pub proof fn law_distance_triangle(a: Seq<char>, b: Seq<char>, c: Seq<char>)
    ensures
        distance(a, c) <= distance(a, b) + distance(b, c),
    decreases a.len() + b.len() + c.len(),
{
    law_distance_is_bounded(a, b);
    law_distance_is_bounded(b, c);
    law_distance_is_bounded(a, c);
    if a.len() == 0 {
    } else if c.len() == 0 {
    } else if b.len() == 0 {
        lemma_distance_bound(a, c);
    } else {
        let a1 = a.drop_last();
        let b1 = b.drop_last();
        let c1 = c.drop_last();
        // The last step from a to b, and the last step from b to c.
        law_distance_triangle(a1, b, c);
        law_distance_triangle(a, b, c1);
        law_distance_triangle(a, b1, c);
        law_distance_triangle(a1, b1, c1);
        law_distance_triangle(a1, b1, c);
        law_distance_triangle(a, b1, c1);
    }
}

/// A single star matches every text.
pub proof fn law_star_matches_everything(t: Seq<char>)
    ensures
        matches_pattern(seq!['*'], t),
    decreases t.len(),
{
    let p = seq!['*'];
    assert(p.drop_first() =~= Seq::<char>::empty());
    reveal_with_fuel(matches_pattern, 2);
    if t.len() > 0 {
        law_star_matches_everything(t.drop_first());
    }
}

/// Whether a pattern has no wildcards.
pub open spec fn is_literal(p: Seq<char>) -> bool {
    forall|i: int| 0 <= i < p.len() ==> #[trigger] p[i] != '*' && p[i] != '?'
}

/// A pattern without wildcards matches itself and nothing else.
pub proof fn law_literal_matches_itself(p: Seq<char>, t: Seq<char>)
    requires
        is_literal(p),
    ensures
        matches_pattern(p, t) == (p == t),
    decreases p.len(),
{
    if p.len() == 0 {
        assert((t.len() == 0) == (p =~= t));
    } else {
        let p1 = p.drop_first();
        assert(is_literal(p1)) by {
            assert forall|i: int| 0 <= i < p1.len() implies #[trigger] p1[i] != '*' && p1[i]
                != '?' by {
                assert(p[i + 1] != '*');
            }
        }
        assert(p[0] != '*' && p[0] != '?');
        if t.len() > 0 {
            law_literal_matches_itself(p1, t.drop_first());
            assert(p =~= seq![p[0]] + p1);
            assert(t =~= seq![t[0]] + t.drop_first());
        }
    }
}

/// A literal pattern followed by a star matches the texts that start with it.
pub proof fn law_trailing_star_is_a_prefix(p: Seq<char>, t: Seq<char>)
    requires
        is_literal(p),
    ensures
        matches_pattern(p.push('*'), t) == crate::text_split::starts_with(t, p),
    decreases p.len(),
{
    let q = p.push('*');
    if p.len() == 0 {
        assert(q =~= seq!['*']);
        law_star_matches_everything(t);
        assert(t.subrange(0, 0) =~= p);
    } else {
        let p1 = p.drop_first();
        assert(is_literal(p1)) by {
            assert forall|i: int| 0 <= i < p1.len() implies #[trigger] p1[i] != '*' && p1[i]
                != '?' by {
                assert(p[i + 1] != '*');
            }
        }
        assert(q.drop_first() =~= p1.push('*'));
        assert(q[0] == p[0]);
        assert(p[0] != '*' && p[0] != '?');
        if t.len() > 0 {
            let t1 = t.drop_first();
            law_trailing_star_is_a_prefix(p1, t1);
            if crate::text_split::starts_with(t, p) {
                assert(t.subrange(0, p.len() as int)[0] == p[0]);
                assert(t1.subrange(0, p1.len() as int) =~= t.subrange(
                    0,
                    p.len() as int,
                ).drop_first());
            }
            if p[0] == t[0] && crate::text_split::starts_with(t1, p1) {
                assert(t.subrange(0, p.len() as int) =~= seq![t[0]] + t1.subrange(
                    0,
                    p1.len() as int,
                ));
                assert(p =~= seq![p[0]] + p1);
            }
        }
    }
}

/// A question mark matches exactly the texts of one character.
pub proof fn law_question_mark_matches_one(t: Seq<char>)
    ensures
        matches_pattern(seq!['?'], t) == (t.len() == 1),
{
    let p = seq!['?'];
    assert(p.drop_first() =~= Seq::<char>::empty());
    reveal_with_fuel(matches_pattern, 2);
}

/// A character and a star match the texts in which that character alone occurs, the empty one among
/// them; a dot and a star match every text.
pub proof fn law_star_repeats(c: char, t: Seq<char>)
    requires
        c != '*',
    ensures
        regex_matches(seq![c].push('*'), t) == (forall|i: int|
            0 <= i < t.len() ==> stands_for(c, #[trigger] t[i])),
    decreases t.len(),
{
    let p = seq![c].push('*');
    assert(p.skip(2) =~= Seq::<char>::empty());
    assert(p[1] == '*');
    if t.len() > 0 {
        let rest = t.drop_first();
        law_star_repeats(c, rest);
        if forall|i: int| 0 <= i < t.len() ==> stands_for(c, #[trigger] t[i]) {
            assert forall|i: int| 0 <= i < rest.len() implies stands_for(c, #[trigger] rest[i]) by {
                assert(rest[i] == t[i + 1]);
            }
        }
        if stands_for(c, t[0]) && forall|i: int|
            0 <= i < rest.len() ==> stands_for(c, #[trigger] rest[i]) {
            assert forall|i: int| 0 <= i < t.len() implies stands_for(c, #[trigger] t[i]) by {
                if i > 0 {
                    assert(rest[i - 1] == t[i]);
                }
            }
        }
    }
    assert(regex_matches(p.skip(2), t) == (t.len() == 0));
}

/// A star at the start of an expression stands for any characters: the expression matches the texts
/// of which some end matches the rest.
pub proof fn law_leading_star(p: Seq<char>, t: Seq<char>)
    ensures
        regex_matches(seq!['*'] + p, t) == (exists|i: int|
            0 <= i <= t.len() && regex_matches(p, #[trigger] t.skip(i))),
    decreases t.len(),
{
    let q = seq!['*'] + p;
    assert(q.drop_first() =~= p);
    assert(t.skip(0) =~= t);
    if t.len() > 0 {
        let rest = t.drop_first();
        law_leading_star(p, rest);
        if regex_matches(q, t) && !regex_matches(p, t) {
            let i = choose|i: int| 0 <= i <= rest.len() && regex_matches(p, #[trigger] rest.skip(i));
            assert(rest.skip(i) =~= t.skip(i + 1));
        }
        if exists|i: int| 0 <= i <= t.len() && regex_matches(p, #[trigger] t.skip(i)) {
            let i = choose|i: int| 0 <= i <= t.len() && regex_matches(p, #[trigger] t.skip(i));
            if i > 0 {
                assert(rest.skip(i - 1) =~= t.skip(i));
            }
        }
    }
}

/// An expression without stars matches the texts of its length in which every character is one
/// that the expression has in that place; without dots, it matches itself alone.
pub proof fn law_starless_expression(p: Seq<char>, t: Seq<char>)
    requires
        !p.contains('*'),
    ensures
        regex_matches(p, t) == (p.len() == t.len() && forall|i: int|
            0 <= i < p.len() ==> stands_for(#[trigger] p[i], t[i])),
        !p.contains('.') ==> regex_matches(p, t) == (p == t),
    decreases p.len(),
{
    if p.len() == 0 {
        assert((t.len() == 0) == (p =~= t));
    } else {
        let rest = p.drop_first();
        assert(!rest.contains('*')) by {
            if rest.contains('*') {
                let i = choose|i: int| 0 <= i < rest.len() && rest[i] == '*';
                assert(p[i + 1] == '*');
            }
        }
        assert(p[0] != '*');
        if p.len() > 1 {
            assert(p[1] != '*');
        }
        if t.len() > 0 {
            let left = t.drop_first();
            law_starless_expression(rest, left);
            assert forall|i: int| 0 <= i < rest.len() implies rest[i] == p[i + 1] by {}
            assert forall|i: int| 0 <= i < left.len() implies left[i] == t[i + 1] by {}
            if p.len() == t.len() && forall|i: int|
                0 <= i < p.len() ==> stands_for(#[trigger] p[i], t[i]) {
                assert forall|i: int| 0 <= i < rest.len() implies stands_for(
                    #[trigger] rest[i],
                    left[i],
                ) by {
                    assert(stands_for(p[i + 1], t[i + 1]));
                }
            }
            if regex_matches(p, t) {
                assert forall|i: int| 0 <= i < p.len() implies stands_for(#[trigger] p[i], t[i]) by {
                    if i > 0 {
                        assert(stands_for(rest[i - 1], left[i - 1]));
                    }
                }
            }
        }
        if !p.contains('.') {
            if regex_matches(p, t) {
                assert forall|i: int| 0 <= i < p.len() implies p[i] == t[i] by {
                    assert(stands_for(p[i], t[i]));
                    assert(p[i] != '.');
                }
                assert(p =~= t);
            }
        }
    }
}

/// Putting a character in anywhere, or exchanging one, is one edit.
pub proof fn law_one_edit_is_near(p: Seq<char>, s: Seq<char>, c: char, d: char)
    ensures
        distance(p + s, p + seq![c] + s) == 1,
        distance(p + seq![c] + s, p + s) == 1,
        c != d ==> distance(p + seq![c] + s, p + seq![d] + s) == 1,
    decreases s.len(),
{
    lemma_one_edit_at_most(p, s, c, d);
    let short = p + s;
    let long = p + seq![c] + s;
    if distance(short, long) == 0 {
        law_distance_zero_means_equal(short, long);
        assert(short.len() != long.len());
    }
    law_distance_is_symmetric(short, long);
    if c != d && distance(long, p + seq![d] + s) == 0 {
        law_distance_zero_means_equal(long, p + seq![d] + s);
        assert(long[p.len() as int] == c);
        assert((p + seq![d] + s)[p.len() as int] == d);
    }
}

proof fn lemma_one_edit_at_most(p: Seq<char>, s: Seq<char>, c: char, d: char)
    ensures
        distance(p + s, p + seq![c] + s) <= 1,
        distance(p + seq![c] + s, p + seq![d] + s) <= 1,
    decreases s.len(),
{
    let short = p + s;
    let x = p + seq![c] + s;
    let y = p + seq![d] + s;
    if s.len() == 0 {
        assert(short =~= p);
        assert(x.drop_last() =~= p);
        assert(y.drop_last() =~= p);
        law_distance_to_itself(p);
    } else {
        let s1 = s.drop_last();
        lemma_one_edit_at_most(p, s1, c, d);
        assert(short.drop_last() =~= p + s1);
        assert(x.drop_last() =~= p + seq![c] + s1);
        assert(y.drop_last() =~= p + seq![d] + s1);
        assert(short.last() == s.last() && x.last() == s.last() && y.last() == s.last());
    }
}

/// Two texts are at least as far apart as their lengths.
pub proof fn law_distance_covers_the_lengths(a: Seq<char>, b: Seq<char>)
    ensures
        distance(a, b) + a.len() >= b.len(),
        distance(a, b) + b.len() >= a.len(),
    decreases a.len() + b.len(),
{
    if a.len() > 0 && b.len() > 0 {
        law_distance_covers_the_lengths(a.drop_last(), b.drop_last());
        law_distance_covers_the_lengths(a.drop_last(), b);
        law_distance_covers_the_lengths(a, b.drop_last());
    }
}

/// A star stands for any run of characters: a pattern that begins with one matches the texts of which
/// some end matches the rest.
pub proof fn law_star_is_any_run(p: Seq<char>, t: Seq<char>)
    ensures
        matches_pattern(seq!['*'] + p, t) == (exists|i: int|
            0 <= i <= t.len() && matches_pattern(p, #[trigger] t.skip(i))),
    decreases t.len(),
{
    let q = seq!['*'] + p;
    assert(q.drop_first() =~= p);
    assert(t.skip(0) =~= t);
    if t.len() > 0 {
        let rest = t.drop_first();
        law_star_is_any_run(p, rest);
        if matches_pattern(q, t) && !matches_pattern(p, t) {
            let i = choose|i: int|
                0 <= i <= rest.len() && matches_pattern(p, #[trigger] rest.skip(i));
            assert(rest.skip(i) =~= t.skip(i + 1));
        }
        if exists|i: int| 0 <= i <= t.len() && matches_pattern(p, #[trigger] t.skip(i)) {
            let i = choose|i: int| 0 <= i <= t.len() && matches_pattern(p, #[trigger] t.skip(i));
            if i > 0 {
                assert(rest.skip(i - 1) =~= t.skip(i));
            }
        }
    }
}

/// A question mark stands for exactly one character, whatever it is, and a character that is no
/// wildcard for itself.
pub proof fn law_other_characters_stand_for_one(c: char, p: Seq<char>, x: char, t: Seq<char>)
    requires
        c != '*',
    ensures
        matches_pattern(seq!['?'] + p, seq![x] + t) == matches_pattern(p, t),
        c != '?' ==> matches_pattern(seq![c] + p, seq![x] + t) == (c == x && matches_pattern(p, t)),
        !matches_pattern(seq![c] + p, Seq::empty()),
        matches_pattern(Seq::empty(), t) == (t.len() == 0),
{
    let q = seq!['?'] + p;
    let r = seq![c] + p;
    let u = seq![x] + t;
    assert(q.drop_first() =~= p);
    assert(r.drop_first() =~= p);
    assert(u.drop_first() =~= t);
    assert(q[0] == '?' && r[0] == c && u[0] == x);
}

/// In a regular expression a character with a star behind it stands for any number of it, a dot with
/// a star for any characters.
pub proof fn law_starred_character_is_any_number(c: char, p: Seq<char>, t: Seq<char>)
    requires
        c != '*',
    ensures
        regex_matches(seq![c, '*'] + p, t) == (exists|k: int|
            0 <= k <= t.len() && (forall|i: int| 0 <= i < k ==> c == '.' || t[i] == c)
                && regex_matches(p, #[trigger] t.skip(k))),
    decreases t.len(),
{
    let q = seq![c, '*'] + p;
    assert(q.skip(2) =~= p);
    assert(q[0] == c && q[1] == '*');
    assert(t.skip(0) =~= t);
    if t.len() > 0 {
        let rest = t.drop_first();
        law_starred_character_is_any_number(c, p, rest);
        if regex_matches(q, t) && !regex_matches(p, t) {
            let k = choose|k: int|
                0 <= k <= rest.len() && (forall|i: int| 0 <= i < k ==> c == '.' || rest[i] == c)
                    && regex_matches(p, #[trigger] rest.skip(k));
            assert(rest.skip(k) =~= t.skip(k + 1));
            assert forall|i: int| 0 <= i < k + 1 implies c == '.' || t[i] == c by {
                if i > 0 {
                    assert(rest[i - 1] == t[i]);
                }
            }
        }
        if exists|k: int|
            0 <= k <= t.len() && (forall|i: int| 0 <= i < k ==> c == '.' || t[i] == c)
                && regex_matches(p, #[trigger] t.skip(k)) {
            let k = choose|k: int|
                0 <= k <= t.len() && (forall|i: int| 0 <= i < k ==> c == '.' || t[i] == c)
                    && regex_matches(p, #[trigger] t.skip(k));
            if k > 0 {
                assert(rest.skip(k - 1) =~= t.skip(k));
                assert forall|i: int| 0 <= i < k - 1 implies c == '.' || rest[i] == c by {
                    assert(rest[i] == t[i + 1]);
                }
                assert(c == '.' || t[0] == c);
            }
        }
    }
}

} // verus!
