//! Fragments of stored texts with the words that were searched for marked in them.

use crate::fts::analyzer::{
    find_whitespace_tokens, placed_words, token_views, tokenize, tokens_of, TokenView, WordKind,
    words_in,
};
use crate::fts::definition::{DefinitionView, FtsIndexDefinition};
use crate::fts::inverted::{stored_view, InvertedIndex};
use crate::fts::json::{join, join_texts};
use crate::fts::query::{query_fits, FtsQuery};
use crate::text::{chars_of, contains_text, push_char, same_text, texts};
use crate::unicode::{alphanumeric, is_alphanumeric, lowercase, lowercase_of};
use vstd::prelude::*;
use vstd::string::*;

verus! {

/// The letters and numbers among the first `k` characters.
pub open spec fn plain_prefix(t: Seq<char>, k: int) -> Seq<char>
    decreases k,
{
    if k <= 0 {
        Seq::empty()
    } else if is_alphanumeric(t[k - 1]) {
        plain_prefix(t, k - 1).push(t[k - 1])
    } else {
        plain_prefix(t, k - 1)
    }
}

/// A word as it is compared with terms: in lower case, letters and numbers only.
pub open spec fn plain(word: Seq<char>) -> Seq<char> {
    let lower = lowercase_of(word);
    plain_prefix(lower, lower.len() as int)
}

fn plain_word(word: &str) -> (r: String)
    ensures
        r@ == plain(word@),
{
    let lower = lowercase(word);
    let cs = chars_of(lower.as_str());
    let mut out = String::new();
    let mut k: usize = 0;
    while k < cs.len()
        invariant
            k <= cs@.len(),
            out@ == plain_prefix(cs@, k as int),
        decreases cs@.len() - k,
    {
        if alphanumeric(cs[k]) {
            push_char(&mut out, cs[k]);
        }
        k = k + 1;
    }
    out
}

/// A word of a fragment, marked if it was searched for.
pub open spec fn marked(word: Seq<char>, terms: Seq<Seq<char>>) -> Seq<char> {
    if terms.contains(plain(word)) {
        "<mark>"@ + word + "</mark>"@
    } else {
        word
    }
}

/// How many words a fragment has on either side.
pub const REACH: usize = 5;

/// Where a fragment around a place begins.
pub open spec fn fragment_start(i: int) -> int {
    if i < REACH {
        0
    } else {
        i - REACH
    }
}

/// Where a fragment around a place ends.
pub open spec fn fragment_end(i: int, n: int) -> int {
    if i + REACH + 1 < n {
        i + REACH + 1
    } else {
        n
    }
}

/// The words of a fragment, marked where they were searched for.
pub open spec fn fragment_words(words: Seq<Seq<char>>, terms: Seq<Seq<char>>, from: int, to: int) -> Seq<
    Seq<char>,
> {
    Seq::new((to - from) as nat, |j: int| marked(words[from + j], terms))
}

/// A fragment, with dots where the text goes on.
pub open spec fn fragment(words: Seq<Seq<char>>, terms: Seq<Seq<char>>, from: int, to: int) -> Seq<
    char,
> {
    let body = join(fragment_words(words, terms, from, to), " "@);
    let head = if from > 0 {
        "..."@ + body
    } else {
        body
    };
    if to < words.len() {
        head + "..."@
    } else {
        head
    }
}

/// At most `limit` fragments, from word `i` on.
pub open spec fn fragments_from(
    words: Seq<Seq<char>>,
    terms: Seq<Seq<char>>,
    i: int,
    limit: nat,
) -> Seq<Seq<char>>
    decreases words.len() - i,
{
    if i < 0 || i >= words.len() || limit == 0 {
        Seq::empty()
    } else if terms.contains(plain(words[i])) {
        let to = fragment_end(i, words.len() as int);
        seq![fragment(words, terms, fragment_start(i), to)] + fragments_from(
            words,
            terms,
            to,
            (limit - 1) as nat,
        )
    } else {
        fragments_from(words, terms, i + 1, limit)
    }
}

/// The words of a text that white space separates.
pub open spec fn spaced_words(text: Seq<char>) -> Seq<Seq<char>> {
    let words = words_in(text, WordKind::NonSpace);
    Seq::new(words.len(), |i: int| words[i].1)
}

/// The fragments of a text, three at most.
pub open spec fn fragments_of(text: Seq<char>, terms: Seq<Seq<char>>) -> Seq<Seq<char>> {
    fragments_from(spaced_words(text), terms, 0, 3)
}

fn split_whitespace(text: &str) -> (r: Vec<String>)
    ensures
        texts(r@) == spaced_words(text@),
{
    let found = find_whitespace_tokens(text);
    let mut out: Vec<String> = Vec::new();
    let ghost views = placed_words(found@);
    let mut k: usize = 0;
    while k < found.len()
        invariant
            k <= found@.len(),
            views == placed_words(found@),
            out@.len() == k,
            forall|i: int| 0 <= i < k ==> (#[trigger] out@[i])@ == views[i].1,
        decreases found@.len() - k,
    {
        out.push(found[k].1.clone());
        k = k + 1;
    }
    assert(texts(out@) =~= spaced_words(text@));
    out
}

fn make_fragment(words: &Vec<String>, terms: &Vec<String>, from: usize, to: usize) -> (r: String)
    requires
        from <= to <= words@.len(),
    ensures
        r@ == fragment(texts(words@), texts(terms@), from as int, to as int),
{
    let ghost all = texts(words@);
    let ghost wanted = texts(terms@);
    let mut parts: Vec<String> = Vec::new();
    let mut j: usize = from;
    while j < to
        invariant
            from <= j <= to <= words@.len(),
            all == texts(words@),
            wanted == texts(terms@),
            parts@.len() == j - from,
            forall|i: int|
                0 <= i < parts@.len() ==> (#[trigger] parts@[i])@ == marked(all[from + i], wanted),
        decreases to - j,
    {
        let clean = plain_word(words[j].as_str());
        let mut part = String::new();
        if contains_text(terms, clean.as_str()) {
            part.append("<mark>");
            part.append(words[j].as_str());
            part.append("</mark>");
        } else {
            part.append(words[j].as_str());
        }
        assert(part@ =~= marked(all[j as int], wanted));
        parts.push(part);
        j = j + 1;
    }
    assert(texts(parts@) =~= fragment_words(all, wanted, from as int, to as int));
    let body = join_texts(&parts, " ");
    let mut out = String::new();
    if from > 0 {
        out.append("...");
    }
    out.append(body.as_str());
    if to < words.len() {
        out.append("...");
    }
    assert(out@ =~= fragment(all, wanted, from as int, to as int));
    out
}

/// The fragments of a text, three at most.
pub fn highlight_text(text: &str, terms: &Vec<String>) -> (r: Vec<String>)
    ensures
        texts(r@) == fragments_of(text@, texts(terms@)),
{
    let words = split_whitespace(text);
    let ghost all = texts(words@);
    let ghost wanted = texts(terms@);
    let mut out: Vec<String> = Vec::new();
    let n: usize = words.len();
    let mut i: usize = 0;
    assert(texts(out@) + fragments_from(all, wanted, 0, 3) =~= fragments_from(all, wanted, 0, 3));
    while i < n && out.len() < 3
        invariant
            i <= n,
            n == words@.len(),
            all == texts(words@),
            wanted == texts(terms@),
            out@.len() <= 3,
            fragments_of(text@, wanted) == texts(out@) + fragments_from(
                all,
                wanted,
                i as int,
                (3 - out@.len()) as nat,
            ),
        decreases n - i,
    {
        let ghost prior = out@;
        let ghost left = (3 - out@.len()) as nat;
        assert(all[i as int] == words@[i as int]@);
        let clean = plain_word(words[i].as_str());
        if contains_text(terms, clean.as_str()) {
            let start: usize = if i < REACH {
                0
            } else {
                i - REACH
            };
            let end: usize = if n - i > REACH + 1 {
                i + REACH + 1
            } else {
                n
            };
            let piece = make_fragment(&words, terms, start, end);
            out.push(piece);
            proof {
                let rest = fragments_from(all, wanted, end as int, (left - 1) as nat);
                assert(texts(out@) =~= texts(prior).push(piece@));
                assert(texts(prior) + (seq![piece@] + rest) =~= texts(out@) + rest);
            }
            i = end;
        } else {
            i = i + 1;
        }
    }
    assert(texts(out@) + Seq::<Seq<char>>::empty() =~= texts(out@));
    out
}

/// What a list of pairs of texts stands for.
pub open spec fn pair_views(v: Seq<(String, String)>) -> Seq<(Seq<char>, Seq<char>)> {
    Seq::new(v.len(), |i: int| (v[i].0@, v[i].1@))
}

/// Tokens as terms of a field.
pub open spec fn terms_of(field: Seq<char>, tokens: Seq<TokenView>) -> Seq<(Seq<char>, Seq<char>)> {
    Seq::new(tokens.len(), |i: int| (field, tokens[i].text))
}

/// The terms that a query looks for, each with its field.
pub open spec fn query_terms(def: DefinitionView, q: FtsQuery) -> Seq<(Seq<char>, Seq<char>)>
    decreases q, 0nat,
{
    match q {
        FtsQuery::Match { field, query, fuzziness, operator } => terms_of(
            field@,
            tokens_of(query@, def.analyzer_of(field@)),
        ),
        FtsQuery::MatchPhrase { field, query } => terms_of(
            field@,
            tokens_of(query@, def.analyzer_of(field@)),
        ),
        FtsQuery::Term { field, term } => seq![(field@, term@)],
        FtsQuery::Prefix { field, prefix } => seq![(field@, prefix@)],
        FtsQuery::Bool { must, should, must_not } => list_terms(def, must, must@.len())
            + list_terms(def, should, should@.len()),
        _ => Seq::empty(),
    }
}

/// The terms that the first `k` queries look for.
pub open spec fn list_terms(def: DefinitionView, list: Vec<FtsQuery>, k: nat) -> Seq<
    (Seq<char>, Seq<char>),
>
    decreases list, k,
{
    if k == 0 || k > list@.len() {
        Seq::empty()
    } else {
        list_terms(def, list, (k - 1) as nat) + query_terms(def, list@[k - 1])
    }
}

fn analysed_terms(def: &FtsIndexDefinition, field: &str, text: &str) -> (r: Vec<(String, String)>)
    requires
        text@.len() <= u32::MAX,
    ensures
        pair_views(r@) == terms_of(field@, tokens_of(text@, def@.analyzer_of(field@))),
{
    let analyzer = def.get_field_analyzer(field);
    let tokens = tokenize(text, &analyzer);
    let ghost views = token_views(tokens@);
    let mut out: Vec<(String, String)> = Vec::new();
    let mut k: usize = 0;
    while k < tokens.len()
        invariant
            k <= tokens@.len(),
            views == token_views(tokens@),
            out@.len() == k,
            forall|i: int|
                0 <= i < k ==> (#[trigger] out@[i]).0@ == field@ && out@[i].1@ == views[i].text,
        decreases tokens@.len() - k,
    {
        out.push((field.to_owned(), tokens[k].text.clone()));
        k = k + 1;
    }
    assert(pair_views(out@) =~= terms_of(field@, views));
    out
}

/// The terms that a query looks for, each with its field.
pub fn extract_query_terms(def: &FtsIndexDefinition, q: &FtsQuery) -> (r: Vec<(String, String)>)
    requires
        query_fits(*q),
    ensures
        pair_views(r@) == query_terms(def@, *q),
    decreases *q, 0nat,
{
    match q {
        FtsQuery::Match { field, query, .. } => analysed_terms(def, field.as_str(), query.as_str()),
        FtsQuery::MatchPhrase { field, query } => analysed_terms(
            def,
            field.as_str(),
            query.as_str(),
        ),
        FtsQuery::Term { field, term } => {
            let mut out: Vec<(String, String)> = Vec::new();
            out.push((field.clone(), term.clone()));
            assert(pair_views(out@) =~= seq![(field@, term@)]);
            out
        },
        FtsQuery::Prefix { field, prefix } => {
            let mut out: Vec<(String, String)> = Vec::new();
            out.push((field.clone(), prefix.clone()));
            assert(pair_views(out@) =~= seq![(field@, prefix@)]);
            out
        },
        FtsQuery::Bool { must, should, must_not } => {
            let mut out = terms_of_list(def, must);
            let ghost first = out@;
            let mut more = terms_of_list(def, should);
            let ghost second = more@;
            out.append(&mut more);
            assert(pair_views(out@) =~= pair_views(first) + pair_views(second));
            out
        },
        _ => {
            let out: Vec<(String, String)> = Vec::new();
            assert(pair_views(out@) =~= Seq::<(Seq<char>, Seq<char>)>::empty());
            out
        },
    }
}

fn terms_of_list(def: &FtsIndexDefinition, list: &Vec<FtsQuery>) -> (r: Vec<(String, String)>)
    requires
        forall|i: int| 0 <= i < list@.len() ==> query_fits(#[trigger] list@[i]),
    ensures
        pair_views(r@) == list_terms(def@, *list, list@.len()),
    decreases *list, 0nat,
{
    let mut out: Vec<(String, String)> = Vec::new();
    let mut k: usize = 0;
    assert(pair_views(out@) =~= list_terms(def@, *list, 0));
    while k < list.len()
        invariant
            k <= list@.len(),
            forall|i: int| 0 <= i < list@.len() ==> query_fits(#[trigger] list@[i]),
            pair_views(out@) == list_terms(def@, *list, k as nat),
        decreases list@.len() - k,
    {
        assert(decreases_to!(*list => list@[k as int]));
        let ghost prior = out@;
        let mut more = extract_query_terms(def, &list[k]);
        let ghost second = more@;
        out.append(&mut more);
        assert(pair_views(out@) =~= pair_views(prior) + pair_views(second));
        k = k + 1;
    }
    out
}

/// The terms of a field among the first `k`.
pub open spec fn terms_in_field(terms: Seq<(Seq<char>, Seq<char>)>, field: Seq<char>, k: int) -> Seq<
    Seq<char>,
>
    decreases k,
{
    if k <= 0 {
        Seq::empty()
    } else if terms[k - 1].0 == field {
        terms_in_field(terms, field, k - 1).push(terms[k - 1].1)
    } else {
        terms_in_field(terms, field, k - 1)
    }
}

fn select_terms(terms: &Vec<(String, String)>, field: &str) -> (r: Vec<String>)
    ensures
        texts(r@) == terms_in_field(pair_views(terms@), field@, terms@.len() as int),
{
    let ghost views = pair_views(terms@);
    let mut out: Vec<String> = Vec::new();
    let mut k: usize = 0;
    assert(texts(out@) =~= terms_in_field(views, field@, 0));
    while k < terms.len()
        invariant
            k <= terms@.len(),
            views == pair_views(terms@),
            texts(out@) == terms_in_field(views, field@, k as int),
        decreases terms@.len() - k,
    {
        let ghost prior = out@;
        if same_text(terms[k].0.as_str(), field) {
            out.push(terms[k].1.clone());
            assert(texts(out@) =~= texts(prior).push(views[k as int].1));
        }
        k = k + 1;
    }
    out
}

/// The fragments of a field.
pub open spec fn field_fragments(
    terms: Seq<(Seq<char>, Seq<char>)>,
    field: Seq<char>,
    text: Seq<char>,
) -> Seq<Seq<char>> {
    let wanted = terms_in_field(terms, field, terms.len() as int);
    if wanted.len() == 0 {
        Seq::empty()
    } else {
        fragments_of(text, wanted)
    }
}

/// The fragments of the stored fields of a document that have any.
pub fn generate_highlights(
    index: &InvertedIndex,
    def: &FtsIndexDefinition,
    doc: &str,
    q: &FtsQuery,
) -> (r: crate::strmap::StrMap<Vec<String>>)
    requires
        index.wf(),
        query_fits(*q),
    ensures
        r.wf(),
        forall|field: Seq<char>| #[trigger]
            r@.contains_key(field) <==> index@.stored.contains_key(doc@)
                && index@.stored[doc@].contains_key(field) && field_fragments(
                query_terms(def@, *q),
                field,
                index@.stored[doc@][field],
            ).len() > 0,
        forall|field: Seq<char>| #[trigger]
            r@.contains_key(field) ==> texts(r@[field]@) == field_fragments(
                query_terms(def@, *q),
                field,
                index@.stored[doc@][field],
            ),
{
    let terms = extract_query_terms(def, q);
    let ghost wanted = query_terms(def@, *q);
    let mut out: crate::strmap::StrMap<Vec<String>> = crate::strmap::StrMap::new();
    match index.stored.find(doc) {
        Some(at) => {
            let stored = &index.stored.vals[at];
            let ghost held = stored_view(*stored);
            assert(index@.stored[doc@] == held);
            assert(pair_views(terms@).len() == terms@.len());
            let n: usize = stored.keys.len();
            let mut k: usize = 0;
            while k < n
                invariant
                    k <= n,
                    n == stored.keys@.len(),
                    stored.wf(),
                    held == stored_view(*stored),
                    wanted == pair_views(terms@),
                    wanted.len() == terms@.len(),
                    out.wf(),
                    forall|f: Seq<char>| #[trigger]
                        out@.contains_key(f) ==> (exists|j: int| j < k && #[trigger] stored.at(f, j))
                            && field_fragments(wanted, f, held[f]).len() > 0 && texts(out@[f]@)
                            == field_fragments(wanted, f, held[f]),
                    forall|j: int|
                        0 <= j < k && field_fragments(
                            wanted,
                            stored.keys@[j]@,
                            held[stored.keys@[j]@],
                        ).len() > 0 ==> out@.contains_key(#[trigger] stored.keys@[j]@),
                decreases n - k,
            {
                let ghost name = stored.keys@[k as int]@;
                let ghost prior = out;
                proof {
                    stored.lemma_place(k as int);
                    assert(stored.at(name, k as int));
                    assert(held[name] == stored.vals@[k as int]@);
                }
                let mine = select_terms(&terms, stored.keys[k].as_str());
                assert(texts(mine@).len() == mine@.len());
                if mine.len() > 0 {
                    let pieces = highlight_text(stored.vals[k].as_str(), &mine);
                    assert(texts(pieces@).len() == pieces@.len());
                    if pieces.len() > 0 {
                        out.insert(stored.keys[k].clone(), pieces);
                    }
                }
                proof {
                    assert forall|f: Seq<char>| #[trigger] out@.contains_key(f) implies (exists|
                        j: int,
                    |
                        j < k + 1 && #[trigger] stored.at(f, j)) && field_fragments(
                        wanted,
                        f,
                        held[f],
                    ).len() > 0 && texts(out@[f]@) == field_fragments(wanted, f, held[f]) by {
                        if f == name {
                            assert(stored.at(f, k as int));
                        }
                        if prior@.contains_key(f) {
                            let j = choose|j: int| j < k && #[trigger] stored.at(f, j);
                            assert(stored.at(f, j));
                        }
                    }
                }
                k = k + 1;
            }
            proof {
                assert forall|f: Seq<char>| #[trigger] out@.contains_key(f) <==> held.contains_key(f)
                    && field_fragments(wanted, f, held[f]).len() > 0 by {
                    if out@.contains_key(f) {
                        let j = choose|j: int| j < n && #[trigger] stored.at(f, j);
                        stored.lemma_place(j);
                    }
                    if held.contains_key(f) && field_fragments(wanted, f, held[f]).len() > 0 {
                        let j = stored.place(f);
                        assert(stored@.contains_key(f));
                        assert(stored.at(f, j));
                        assert(stored.keys@[j]@ == f);
                    }
                }
            }
        },
        None => {},
    }
    out
}

// ---- Laws ----

proof fn lemma_plain_prefix(t: Seq<char>, k: int)
    requires
        0 <= k <= t.len(),
    ensures
        plain_prefix(t, k) == t.take(k).filter(|c: char| is_alphanumeric(c)),
    decreases k,
{
    reveal(Seq::filter);
    if k > 0 {
        lemma_plain_prefix(t, k - 1);
        assert(t.take(k).drop_last() =~= t.take(k - 1));
    } else {
        assert(t.take(0) =~= Seq::<char>::empty());
    }
}

/// A word is compared with terms by its letters and numbers in lower case. It is marked exactly where
/// they are one of the terms, and otherwise left as it is.
pub proof fn law_found_words_are_marked(word: Seq<char>, terms: Seq<Seq<char>>)
    ensures
        plain(word) == lowercase_of(word).filter(|c: char| is_alphanumeric(c)),
        terms.contains(plain(word)) ==> marked(word, terms) == "<mark>"@ + word + "</mark>"@,
        !terms.contains(plain(word)) ==> marked(word, terms) == word,
{
    let lower = lowercase_of(word);
    lemma_plain_prefix(lower, lower.len() as int);
    assert(lower.take(lower.len() as int) =~= lower);
}

/// A fragment around a word reaches five words to either side, as far as there are any, and shows
/// every word of it in its place, with dots where the text goes on.
pub proof fn law_fragments_reach_five_words(
    words: Seq<Seq<char>>,
    terms: Seq<Seq<char>>,
    i: int,
)
    requires
        0 <= i < words.len(),
    ensures
        ({
            let n = words.len() as int;
            let from = fragment_start(i);
            let to = fragment_end(i, n);
            let shown = fragment_words(words, terms, from, to);
            let body = join(shown, " "@);
            &&& 0 <= from <= i < to <= n
            &&& from == 0 || from == i - 5
            &&& i >= 5 ==> from == i - 5
            &&& to == n || to == i + 6
            &&& i + 6 <= n ==> to == i + 6
            &&& shown.len() == to - from
            &&& forall|j: int| from <= j < to ==> #[trigger] shown[j - from] == marked(
                words[j],
                terms,
            )
            &&& from == 0 && to == n ==> fragment(words, terms, from, to) == body
            &&& from > 0 && to == n ==> fragment(words, terms, from, to) == "..."@ + body
            &&& from == 0 && to < n ==> fragment(words, terms, from, to) == body + "..."@
            &&& from > 0 && to < n ==> fragment(words, terms, from, to) == "..."@ + body + "..."@
        }),
{
}

/// There are at most three fragments, and at least one exactly where a word was found. The first is
/// around the first word that was found.
pub proof fn law_fragments_show_what_was_found(
    words: Seq<Seq<char>>,
    terms: Seq<Seq<char>>,
    i: int,
    limit: nat,
)
    requires
        0 <= i <= words.len(),
        limit > 0,
    ensures
        fragments_from(words, terms, i, limit).len() <= limit,
        fragments_from(words, terms, i, limit).len() > 0 <==> exists|p: int|
            i <= p < words.len() && terms.contains(plain(#[trigger] words[p])),
        forall|p: int|
            i <= p < words.len() && terms.contains(plain(#[trigger] words[p])) && (forall|q: int|
                i <= q < p ==> !terms.contains(plain(#[trigger] words[q]))) ==> fragments_from(
                words,
                terms,
                i,
                limit,
            )[0] == fragment(
                words,
                terms,
                fragment_start(p),
                fragment_end(p, words.len() as int),
            ),
    decreases words.len() - i,
{
    lemma_fragments_bounded(words, terms, i, limit);
    if i < words.len() {
        if terms.contains(plain(words[i])) {
            assert forall|p: int|
                i <= p < words.len() && terms.contains(plain(#[trigger] words[p])) && (forall|q: int|
                    i <= q < p ==> !terms.contains(plain(#[trigger] words[q]))) implies p == i by {
                if p > i {
                    assert(!terms.contains(plain(words[i])));
                }
            }
        } else {
            law_fragments_show_what_was_found(words, terms, i + 1, limit);
        }
    }
}

proof fn lemma_fragments_bounded(words: Seq<Seq<char>>, terms: Seq<Seq<char>>, i: int, limit: nat)
    ensures
        fragments_from(words, terms, i, limit).len() <= limit,
    decreases words.len() - i,
{
    if 0 <= i < words.len() && limit > 0 {
        if terms.contains(plain(words[i])) {
            lemma_fragments_bounded(
                words,
                terms,
                fragment_end(i, words.len() as int),
                (limit - 1) as nat,
            );
        } else {
            lemma_fragments_bounded(words, terms, i + 1, limit);
        }
    }
}

/// A text has at most three fragments, of the words that white space separates.
pub proof fn law_texts_have_three_fragments_at_most(text: Seq<char>, terms: Seq<Seq<char>>)
    ensures
        fragments_of(text, terms).len() <= 3,
        fragments_of(text, terms).len() > 0 <==> exists|p: int|
            0 <= p < words_in(text, WordKind::NonSpace).len() && terms.contains(
                plain((#[trigger] words_in(text, WordKind::NonSpace)[p]).1),
            ),
{
    let words = spaced_words(text);
    let spaced = words_in(text, WordKind::NonSpace);
    law_fragments_show_what_was_found(words, terms, 0, 3);
    if fragments_of(text, terms).len() > 0 {
        let p = choose|p: int| 0 <= p < words.len() && terms.contains(plain(#[trigger] words[p]));
        assert(terms.contains(plain(spaced[p].1)));
    }
    if exists|p: int| 0 <= p < spaced.len() && terms.contains(plain((#[trigger] spaced[p]).1)) {
        let p = choose|p: int|
            0 <= p < spaced.len() && terms.contains(plain((#[trigger] spaced[p]).1));
        assert(terms.contains(plain(words[p])));
    }
}

proof fn lemma_terms_in_field(
    terms: Seq<(Seq<char>, Seq<char>)>,
    field: Seq<char>,
    k: int,
    term: Seq<char>,
)
    requires
        0 <= k <= terms.len(),
    ensures
        terms_in_field(terms, field, k).contains(term) <==> exists|i: int|
            0 <= i < k && #[trigger] terms[i] == (field, term),
    decreases k,
{
    if k > 0 {
        lemma_terms_in_field(terms, field, k - 1, term);
        let rest = terms_in_field(terms, field, k - 1);
        let all = terms_in_field(terms, field, k);
        if terms[k - 1].0 == field {
            assert(all == rest.push(terms[k - 1].1));
            if rest.contains(term) {
                let j = choose|j: int| 0 <= j < rest.len() && rest[j] == term;
                assert(all[j] == term);
            }
            if terms[k - 1].1 == term {
                assert(all[rest.len() as int] == term);
            }
            if all.contains(term) {
                let j = choose|j: int| 0 <= j < all.len() && all[j] == term;
                if j < rest.len() {
                    assert(rest[j] == term);
                }
            }
        }
    }
}

/// A field is searched for the terms that the query names for it, and for no others.
pub proof fn law_terms_belong_to_their_field(
    terms: Seq<(Seq<char>, Seq<char>)>,
    field: Seq<char>,
    term: Seq<char>,
)
    ensures
        terms_in_field(terms, field, terms.len() as int).contains(term) <==> terms.contains(
            (field, term),
        ),
{
    lemma_terms_in_field(terms, field, terms.len() as int, term);
    if terms.contains((field, term)) {
        let i = choose|i: int| 0 <= i < terms.len() && terms[i] == (field, term);
        assert(terms[i] == (field, term));
    }
}

/// What a boolean query must not find is not marked: its terms are those of `must` and `should`.
pub proof fn law_unwanted_terms_are_not_marked(def: DefinitionView, q: FtsQuery)
    requires
        q is Bool,
    ensures
        query_terms(def, q) == list_terms(def, q->must, q->must@.len()) + list_terms(
            def,
            q->should,
            q->should@.len(),
        ),
{
}

/// A field shows fragments for the terms that were looked for in it, and none where there were none.
pub proof fn law_fields_show_their_own_terms(
    terms: Seq<(Seq<char>, Seq<char>)>,
    field: Seq<char>,
    text: Seq<char>,
)
    ensures
        ({
            let own = terms.filter(|t: (Seq<char>, Seq<char>)| t.0 == field).map_values(
                |t: (Seq<char>, Seq<char>)| t.1,
            );
            &&& own.len() == 0 ==> field_fragments(terms, field, text).len() == 0
            &&& own.len() > 0 ==> field_fragments(terms, field, text) == fragments_of(text, own)
        }),
{
    assert(terms.take(terms.len() as int) =~= terms);
    lemma_own_terms(terms, field, terms.len() as int);
}

proof fn lemma_own_terms(terms: Seq<(Seq<char>, Seq<char>)>, field: Seq<char>, k: int)
    requires
        0 <= k <= terms.len(),
    ensures
        terms_in_field(terms, field, k) == terms.take(k).filter(
            |t: (Seq<char>, Seq<char>)| t.0 == field,
        ).map_values(|t: (Seq<char>, Seq<char>)| t.1),
    decreases k,
{
    reveal(Seq::filter);
    let s = terms.take(k);
    let keep = |t: (Seq<char>, Seq<char>)| t.0 == field;
    if k > 0 {
        lemma_own_terms(terms, field, k - 1);
        assert(s.drop_last() =~= terms.take(k - 1));
        let before = s.drop_last().filter(keep);
        if keep(s.last()) {
            assert(before.push(s.last()).map_values(|t: (Seq<char>, Seq<char>)| t.1)
                =~= before.map_values(|t: (Seq<char>, Seq<char>)| t.1).push(s.last().1));
        }
    } else {
        assert(terms_in_field(terms, field, 0) =~= s.filter(keep).map_values(
            |t: (Seq<char>, Seq<char>)| t.1,
        ));
    }
}

} // verus!
