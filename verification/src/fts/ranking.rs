//! The order of search results.

use crate::fts::inverted::{stored_view, InvertedIndex};
use crate::text::{
    lemma_text_lt_irreflexive, lemma_text_lt_total, lemma_text_lt_transitive, same_text,
    text_before, text_lt, texts,
};
use crate::text_split::{has_prefix, starts_with, text_after};
use vstd::prelude::*;
use vstd::string::*;

verus! {

/// What the order of results goes by: the weight of a document and its stored texts.
pub struct Candidate {
    pub weight: u64,
    pub fields: Map<Seq<char>, Seq<char>>,
}

/// What the order goes by, for each document that was found.
pub open spec fn candidates(
    stored: Map<Seq<char>, Map<Seq<char>, Seq<char>>>,
    docs: Seq<Seq<char>>,
    weights: Seq<u64>,
) -> Seq<Candidate> {
    Seq::new(
        docs.len(),
        |i: int|
            Candidate {
                weight: weights[i],
                fields: if stored.contains_key(docs[i]) {
                    stored[docs[i]]
                } else {
                    Map::empty()
                },
            },
    )
}

/// Whether a key turns the order round: it begins with a hyphen.
pub open spec fn is_reversed(key: Seq<char>) -> bool {
    starts_with(key, "-"@)
}

/// The field that a key names.
pub open spec fn key_field(key: Seq<char>) -> Seq<char> {
    if is_reversed(key) {
        key.subrange(1, key.len() as int)
    } else {
        key
    }
}

/// Whether a document comes before another by one key: `_score` puts the heavier first, a field the
/// earlier text; a hyphen in front turns the order round. Documents without the field come last.
pub open spec fn key_before(key: Seq<char>, x: Candidate, y: Candidate) -> bool {
    let field = key_field(key);
    if field == "_score"@ {
        if is_reversed(key) {
            x.weight < y.weight
        } else {
            x.weight > y.weight
        }
    } else if !y.fields.contains_key(field) {
        x.fields.contains_key(field)
    } else if !x.fields.contains_key(field) {
        false
    } else if is_reversed(key) {
        text_lt(y.fields[field], x.fields[field])
    } else {
        text_lt(x.fields[field], y.fields[field])
    }
}

/// Whether a document comes before another by keys from place `k` on, of which the earlier ones
/// decide first.
pub open spec fn keys_before(keys: Seq<Seq<char>>, k: int, x: Candidate, y: Candidate) -> bool
    decreases keys.len() - k,
{
    if k < 0 || k >= keys.len() {
        false
    } else {
        key_before(keys[k], x, y) || (!key_before(keys[k], y, x) && keys_before(keys, k + 1, x, y))
    }
}

/// Whether a document comes before another in the order that a search asks for: by its keys, and by
/// weight where there are none.
pub open spec fn comes_before(sort: Seq<Seq<char>>, x: Candidate, y: Candidate) -> bool {
    if sort.len() == 0 {
        x.weight > y.weight
    } else {
        keys_before(sort, 0, x, y)
    }
}

/// Whether the place `a` ranks before the place `b`: by the order that is asked for, and of two that
/// are equal in it that which was there first.
pub open spec fn ranks_before(sort: Seq<Seq<char>>, items: Seq<Candidate>, a: int, b: int) -> bool {
    comes_before(sort, items[a], items[b]) || (!comes_before(sort, items[b], items[a]) && a < b)
}

/// Whether a list holds each of the places below `n` once, in the order that is asked for.
pub open spec fn is_ranking(
    order: Seq<usize>,
    sort: Seq<Seq<char>>,
    items: Seq<Candidate>,
    n: int,
) -> bool {
    &&& order.len() == n
    &&& forall|i: int| 0 <= i < n ==> 0 <= #[trigger] order[i] < n
    &&& forall|i: int, j: int|
        0 <= i < j < n ==> ranks_before(
            sort,
            items,
            #[trigger] order[i] as int,
            #[trigger] order[j] as int,
        )
}

/// The order by one key goes one way, and what is not after something not after a third is not after
/// the third.
proof fn lemma_key_order(key: Seq<char>, x: Candidate, y: Candidate, z: Candidate)
    ensures
        !(key_before(key, x, y) && key_before(key, y, x)),
        key_before(key, x, z) ==> key_before(key, x, y) || key_before(key, y, z),
{
    let f = key_field(key);
    if f != "_score"@ {
        let a = x.fields[f];
        let b = y.fields[f];
        let c = z.fields[f];
        lemma_text_lt_irreflexive(a);
        if text_lt(a, b) && text_lt(b, a) {
            lemma_text_lt_transitive(a, b, a);
        }
        if a != b {
            lemma_text_lt_total(a, b);
        }
        if b != c {
            lemma_text_lt_total(b, c);
        }
        if text_lt(a, c) && text_lt(b, a) {
            lemma_text_lt_transitive(b, a, c);
        }
        if text_lt(c, a) && text_lt(a, b) {
            lemma_text_lt_transitive(c, a, b);
        }
    }
}

proof fn lemma_keys_order(keys: Seq<Seq<char>>, k: int, x: Candidate, y: Candidate, z: Candidate)
    ensures
        !(keys_before(keys, k, x, y) && keys_before(keys, k, y, x)),
        keys_before(keys, k, x, z) ==> keys_before(keys, k, x, y) || keys_before(keys, k, y, z),
    decreases keys.len() - k,
{
    if 0 <= k < keys.len() {
        lemma_keys_order(keys, k + 1, x, y, z);
        lemma_key_order(keys[k], x, y, z);
        lemma_key_order(keys[k], y, x, z);
        lemma_key_order(keys[k], x, z, y);
        lemma_key_order(keys[k], z, y, x);
        lemma_key_order(keys[k], y, z, x);
        lemma_key_order(keys[k], z, x, y);
    }
}

/// The order goes one way, and each document that comes before another comes before any third, or
/// the third before the other.
pub proof fn lemma_order(sort: Seq<Seq<char>>, x: Candidate, y: Candidate, z: Candidate)
    ensures
        !(comes_before(sort, x, y) && comes_before(sort, y, x)),
        comes_before(sort, x, z) ==> comes_before(sort, x, y) || comes_before(sort, y, z),
{
    lemma_keys_order(sort, 0, x, y, z);
}

/// The stored text of a document in a field.
fn stored_text<'a>(data: &'a InvertedIndex, doc: &str, field: &str) -> (r: Option<&'a String>)
    requires
        data.wf(),
    ensures
        match r {
            Some(t) => data@.stored.contains_key(doc@) && data@.stored[doc@].contains_key(field@)
                && data@.stored[doc@][field@] == t@,
            None => !(data@.stored.contains_key(doc@) && data@.stored[doc@].contains_key(field@)),
        },
{
    match data.stored.find(doc) {
        None => None,
        Some(at) => {
            let stored = &data.stored.vals[at];
            assert(data@.stored[doc@] == stored_view(*stored));
            stored.get(field)
        },
    }
}

/// Whether the document at place `a` comes before that at place `b` by one key.
fn before_by(
    data: &InvertedIndex,
    docs: &Vec<String>,
    weights: &Vec<u64>,
    key: &str,
    a: usize,
    b: usize,
) -> (r: bool)
    requires
        data.wf(),
        docs@.len() == weights@.len(),
        a < docs@.len(),
        b < docs@.len(),
    ensures
        r == key_before(
            key@,
            candidates(data@.stored, texts(docs@), weights@)[a as int],
            candidates(data@.stored, texts(docs@), weights@)[b as int],
        ),
{
    let ghost items = candidates(data@.stored, texts(docs@), weights@);
    proof {
        reveal_strlit("-");
    }
    let reversed = has_prefix(key, "-");
    let field = if reversed {
        text_after(key, 1)
    } else {
        key.to_owned()
    };
    assert(field@ == key_field(key@));
    assert(items.len() == docs@.len());
    assert(texts(docs@)[a as int] == docs@[a as int]@);
    assert(texts(docs@)[b as int] == docs@[b as int]@);
    if same_text(field.as_str(), "_score") {
        return if reversed {
            weights[a] < weights[b]
        } else {
            weights[a] > weights[b]
        };
    }
    match stored_text(data, docs[b].as_str(), field.as_str()) {
        None => stored_text(data, docs[a].as_str(), field.as_str()).is_some(),
        Some(y) => match stored_text(data, docs[a].as_str(), field.as_str()) {
            None => false,
            Some(x) => if reversed {
                text_before(y.as_str(), x.as_str())
            } else {
                text_before(x.as_str(), y.as_str())
            },
        },
    }
}

/// Whether the document at place `a` comes before that at place `b`.
fn before(
    data: &InvertedIndex,
    docs: &Vec<String>,
    weights: &Vec<u64>,
    sort: &Vec<String>,
    a: usize,
    b: usize,
) -> (r: bool)
    requires
        data.wf(),
        docs@.len() == weights@.len(),
        a < docs@.len(),
        b < docs@.len(),
    ensures
        r == comes_before(
            texts(sort@),
            candidates(data@.stored, texts(docs@), weights@)[a as int],
            candidates(data@.stored, texts(docs@), weights@)[b as int],
        ),
{
    let ghost keys = texts(sort@);
    let ghost items = candidates(data@.stored, texts(docs@), weights@);
    let ghost x = items[a as int];
    let ghost y = items[b as int];
    assert(keys.len() == sort@.len());
    assert(items.len() == docs@.len());
    if sort.len() == 0 {
        return weights[a] > weights[b];
    }
    let mut k: usize = 0;
    while k < sort.len()
        invariant
            k <= sort@.len(),
            data.wf(),
            docs@.len() == weights@.len(),
            a < docs@.len(),
            b < docs@.len(),
            keys == texts(sort@),
            items == candidates(data@.stored, texts(docs@), weights@),
            x == items[a as int],
            y == items[b as int],
            keys_before(keys, 0, x, y) == keys_before(keys, k as int, x, y),
        decreases sort@.len() - k,
    {
        assert(keys[k as int] == sort@[k as int]@);
        if before_by(data, docs, weights, sort[k].as_str(), a, b) {
            return true;
        }
        if before_by(data, docs, weights, sort[k].as_str(), b, a) {
            return false;
        }
        k = k + 1;
    }
    false
}

/// The places of the documents that were found, in the order that is asked for; of those that are
/// equal in it that which comes first.
pub fn rank(data: &InvertedIndex, docs: &Vec<String>, weights: &Vec<u64>, sort: &Vec<String>) -> (r:
    Vec<usize>)
    requires
        data.wf(),
        docs@.len() == weights@.len(),
    ensures
        is_ranking(
            r@,
            texts(sort@),
            candidates(data@.stored, texts(docs@), weights@),
            docs@.len() as int,
        ),
{
    let ghost keys = texts(sort@);
    let ghost items = candidates(data@.stored, texts(docs@), weights@);
    let mut order: Vec<usize> = Vec::new();
    let mut k: usize = 0;
    while k < docs.len()
        invariant
            k <= docs@.len(),
            data.wf(),
            docs@.len() == weights@.len(),
            keys == texts(sort@),
            items == candidates(data@.stored, texts(docs@), weights@),
            is_ranking(order@, keys, items, k as int),
        decreases docs@.len() - k,
    {
        let ghost prior = order@;
        let mut p: usize = 0;
        while p < k && !before(data, docs, weights, sort, k, order[p])
            invariant
                p <= k,
                k < docs@.len(),
                data.wf(),
                docs@.len() == weights@.len(),
                keys == texts(sort@),
                items == candidates(data@.stored, texts(docs@), weights@),
                order@ == prior,
                is_ranking(order@, keys, items, k as int),
                forall|i: int|
                    0 <= i < p ==> !comes_before(
                        keys,
                        items[k as int],
                        items[#[trigger] order@[i] as int],
                    ),
            decreases k - p,
        {
            p = p + 1;
        }
        proof {
            if p < k {
                assert forall|i: int| p <= i < k implies comes_before(
                    keys,
                    items[k as int],
                    items[#[trigger] prior[i] as int],
                ) by {
                    if i > p {
                        let at = items[prior[p as int] as int];
                        let it = items[prior[i] as int];
                        assert(ranks_before(keys, items, prior[p as int] as int, prior[i] as int));
                        lemma_order(keys, at, it, at);
                        lemma_order(keys, items[k as int], it, at);
                    }
                }
            }
        }
        order.insert(p, k);
        proof {
            let now = order@;
            assert forall|i: int, j: int| 0 <= i < j < k + 1 implies ranks_before(
                keys,
                items,
                #[trigger] now[i] as int,
                #[trigger] now[j] as int,
            ) by {
                if j < p {
                    assert(now[i] == prior[i] && now[j] == prior[j]);
                } else if j == p {
                    assert(now[i] == prior[i]);
                } else if i == p {
                    assert(now[j] == prior[j - 1]);
                } else if i < p {
                    assert(now[i] == prior[i] && now[j] == prior[j - 1]);
                } else {
                    assert(now[i] == prior[i - 1] && now[j] == prior[j - 1]);
                }
            }
            assert forall|i: int| 0 <= i < k + 1 implies 0 <= #[trigger] now[i] < k + 1 by {
                if i < p {
                    assert(now[i] == prior[i]);
                } else if i > p {
                    assert(now[i] == prior[i - 1]);
                }
            }
        }
        k = k + 1;
    }
    order
}

// ---- Laws ----

/// Two rankings of the same results are the same: the order of results is determined.
pub proof fn law_order_is_determined(
    a: Seq<usize>,
    b: Seq<usize>,
    sort: Seq<Seq<char>>,
    items: Seq<Candidate>,
    n: int,
)
    requires
        0 <= n <= items.len(),
        is_ranking(a, sort, items, n),
        is_ranking(b, sort, items, n),
    ensures
        a == b,
{
    lemma_ranking_covers(a, sort, items, n);
    lemma_ranking_covers(b, sort, items, n);
    lemma_same_prefix(a, b, sort, items, n, n);
    assert(a =~= b);
}

/// Where a search asks for no order, or for `_score`, heavier results come first.
pub proof fn law_heavier_comes_first(
    order: Seq<usize>,
    sort: Seq<Seq<char>>,
    items: Seq<Candidate>,
    n: int,
    i: int,
    j: int,
)
    requires
        is_ranking(order, sort, items, n),
        sort.len() == 0 || sort[0] == "_score"@,
        0 <= i < j < n,
    ensures
        items[order[i] as int].weight >= items[order[j] as int].weight,
{
    reveal_strlit("_score");
    reveal_strlit("-");
    assert(!is_reversed("_score"@)) by {
        if is_reversed("_score"@) {
            assert("_score"@.subrange(0, 1)[0] == '-');
        }
    }
    assert(ranks_before(sort, items, order[i] as int, order[j] as int));
    if sort.len() > 0 {
        let x = items[order[i] as int];
        let y = items[order[j] as int];
        assert(key_before(sort[0], y, x) ==> keys_before(sort, 0, y, x));
        lemma_order(sort, x, y, x);
    }
}

/// Whether a list holds a place.
pub open spec fn has_place(order: Seq<usize>, n: int, p: int) -> bool {
    exists|i: int| 0 <= i < n && #[trigger] order[i] == p
}

/// A ranking holds every place.
proof fn lemma_ranking_covers(
    a: Seq<usize>,
    sort: Seq<Seq<char>>,
    items: Seq<Candidate>,
    n: int,
)
    requires
        0 <= n <= items.len(),
        is_ranking(a, sort, items, n),
    ensures
        forall|p: int| 0 <= p < n ==> #[trigger] has_place(a, n, p),
{
    let places = Set::new(|p: int| 0 <= p < n);
    let held = a.map_values(|x: usize| x as int);
    assert(held.no_duplicates()) by {
        assert forall|i: int, j: int| 0 <= i < held.len() && 0 <= j < held.len() && i != j implies held[i]
            != held[j] by {
            let x = items[a[i] as int];
            lemma_order(sort, x, x, x);
            if i < j {
                assert(ranks_before(sort, items, a[i] as int, a[j] as int));
            } else {
                assert(ranks_before(sort, items, a[j] as int, a[i] as int));
            }
        }
    }
    held.unique_seq_to_set();
    vstd::set_lib::lemma_int_range(0, n);
    assert(places =~= vstd::set_lib::set_int_range(0, n));
    assert(held.to_set().subset_of(places)) by {
        assert forall|p: int| held.to_set().contains(p) implies places.contains(p) by {
            let i = choose|i: int| 0 <= i < held.len() && held[i] == p;
            assert(a[i] < n);
        }
    }
    vstd::set_lib::lemma_subset_equality(held.to_set(), places);
    assert forall|p: int| 0 <= p < n implies #[trigger] has_place(a, n, p) by {
        assert(held.to_set().contains(p));
        let i = choose|i: int| 0 <= i < held.len() && held[i] == p;
        assert(a[i] == p);
    }
}

proof fn lemma_same_prefix(
    a: Seq<usize>,
    b: Seq<usize>,
    sort: Seq<Seq<char>>,
    items: Seq<Candidate>,
    n: int,
    k: int,
)
    requires
        0 <= k <= n <= items.len(),
        is_ranking(a, sort, items, n),
        is_ranking(b, sort, items, n),
        forall|p: int| 0 <= p < n ==> #[trigger] has_place(a, n, p),
        forall|p: int| 0 <= p < n ==> #[trigger] has_place(b, n, p),
    ensures
        forall|i: int| 0 <= i < k ==> #[trigger] a[i] == b[i],
    decreases k,
{
    if k > 0 {
        lemma_same_prefix(a, b, sort, items, n, k - 1);
        let m = k - 1;
        let x = a[m] as int;
        let y = b[m] as int;
        assert(has_place(b, n, x) && has_place(a, n, y));
        let i = choose|i: int| 0 <= i < n && #[trigger] b[i] == x;
        let j = choose|j: int| 0 <= j < n && #[trigger] a[j] == y;
        if x != y {
            lemma_order(sort, items[x], items[y], items[x]);
            lemma_order(sort, items[x], items[x], items[x]);
            lemma_order(sort, items[y], items[y], items[y]);
            if i < m {
                assert(a[i] == b[i]);
                assert(ranks_before(sort, items, a[i] as int, a[m] as int));
            } else if j < m {
                assert(a[j] == b[j]);
                assert(ranks_before(sort, items, b[j] as int, b[m] as int));
            } else {
                assert(i != m && j != m);
                assert(ranks_before(sort, items, b[m] as int, b[i] as int));
                assert(ranks_before(sort, items, a[m] as int, a[j] as int));
            }
        }
    }
}

/// A key of a field puts the smaller text first, one with a hyphen in front the greater; documents
/// without the field come last either way. The key `_score` puts the heavier first, with a hyphen the
/// lighter.
pub proof fn law_keys_order_by_their_field(field: Seq<char>, x: Candidate, y: Candidate)
    requires
        field != "_score"@,
        field.len() > 0 ==> field[0] != '-',
    ensures
        ({
            let up = field;
            let down = "-"@ + field;
            let both = x.fields.contains_key(field) && y.fields.contains_key(field);
            &&& both ==> key_before(up, x, y) == text_lt(x.fields[field], y.fields[field])
            &&& both ==> key_before(down, x, y) == text_lt(y.fields[field], x.fields[field])
            &&& x.fields.contains_key(field) && !y.fields.contains_key(field) ==> key_before(
                up,
                x,
                y,
            ) && key_before(down, x, y)
            &&& !x.fields.contains_key(field) ==> !key_before(up, x, y) && !key_before(down, x, y)
        }),
        key_before("_score"@, x, y) == (x.weight > y.weight),
        key_before("-_score"@, x, y) == (x.weight < y.weight),
{
    reveal_strlit("-");
    reveal_strlit("_score");
    reveal_strlit("-_score");
    let down = "-"@ + field;
    assert(down.subrange(0, 1) =~= "-"@);
    assert(down.subrange(1, down.len() as int) =~= field);
    if is_reversed(field) {
        assert(field.subrange(0, 1)[0] == '-');
    }
    if is_reversed("_score"@) {
        assert("_score"@.subrange(0, 1)[0] == '-');
    }
    assert("-_score"@.subrange(0, 1) =~= "-"@);
    assert("-_score"@.subrange(1, 7) =~= "_score"@);
}

/// Of several keys the first in which two documents differ decides; of documents that are equal in
/// all, that which was there first comes first.
pub proof fn law_earlier_keys_decide_first(
    keys: Seq<Seq<char>>,
    items: Seq<Candidate>,
    a: int,
    b: int,
    p: int,
)
    requires
        0 <= p < keys.len(),
        key_before(keys[p], items[a], items[b]),
        forall|k: int|
            0 <= k < p ==> !key_before(#[trigger] keys[k], items[a], items[b]) && !key_before(
                keys[k],
                items[b],
                items[a],
            ),
    ensures
        comes_before(keys, items[a], items[b]),
        ranks_before(keys, items, a, b),
{
    lemma_later_key(keys, items[a], items[b], p, 0);
}

proof fn lemma_later_key(keys: Seq<Seq<char>>, x: Candidate, y: Candidate, p: int, i: int)
    requires
        0 <= i <= p < keys.len(),
        key_before(keys[p], x, y),
        forall|k: int|
            0 <= k < p ==> !key_before(#[trigger] keys[k], x, y) && !key_before(keys[k], y, x),
    ensures
        keys_before(keys, i, x, y),
    decreases p - i,
{
    if i < p {
        lemma_later_key(keys, x, y, p, i + 1);
        assert(!key_before(keys[i], y, x));
    }
}

/// Documents that no key tells apart keep the order in which they were found.
pub proof fn law_equal_documents_keep_their_order(
    keys: Seq<Seq<char>>,
    items: Seq<Candidate>,
    a: int,
    b: int,
)
    requires
        keys.len() > 0 ==> forall|k: int|
            0 <= k < keys.len() ==> !key_before(#[trigger] keys[k], items[a], items[b])
                && !key_before(keys[k], items[b], items[a]),
        keys.len() == 0 ==> items[a].weight == items[b].weight,
    ensures
        ranks_before(keys, items, a, b) <==> a < b,
{
    if keys.len() > 0 {
        lemma_no_key(keys, items[a], items[b], 0);
        lemma_no_key(keys, items[b], items[a], 0);
    }
}

proof fn lemma_no_key(keys: Seq<Seq<char>>, x: Candidate, y: Candidate, i: int)
    requires
        0 <= i <= keys.len(),
        forall|k: int|
            0 <= k < keys.len() ==> !key_before(#[trigger] keys[k], x, y) && !key_before(
                keys[k],
                y,
                x,
            ),
    ensures
        !keys_before(keys, i, x, y),
    decreases keys.len() - i,
{
    if i < keys.len() {
        lemma_no_key(keys, x, y, i + 1);
        assert(!key_before(keys[i], x, y));
    }
}

/// The results that are ranked have the weights they were given and the stored fields of their
/// documents.
pub proof fn law_candidates_are_the_results(
    stored: Map<Seq<char>, Map<Seq<char>, Seq<char>>>,
    docs: Seq<Seq<char>>,
    weights: Seq<u64>,
    i: int,
)
    requires
        0 <= i < docs.len(),
        docs.len() == weights.len(),
    ensures
        candidates(stored, docs, weights).len() == docs.len(),
        candidates(stored, docs, weights)[i].weight == weights[i],
        stored.contains_key(docs[i]) ==> candidates(stored, docs, weights)[i].fields
            == stored[docs[i]],
        !stored.contains_key(docs[i]) ==> candidates(stored, docs, weights)[i].fields.dom()
            == Set::<Seq<char>>::empty(),
{
}

} // verus!
