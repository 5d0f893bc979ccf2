//! What queries mean, in terms of the texts that were indexed.

use crate::fts::analyzer::{law_positions_count_up, tokens_of, AnalyzerView, TokenView};
use crate::fts::definition::{DefinitionView, FtsIndexState};
use crate::fts::engine::{
    after_delete, after_upsert, built, follows_bucket, FtsDocument, FtsIndexView,
};
use crate::fts::index::{FieldIndex, FieldView};
use crate::fts::inverted::{content_at, mappings_for, Filling, IndexView, InvertedIndex};
use crate::fts::json::{FieldContent, MappingView};
use crate::fts::laws::{finds, law_terms_are_found, posted};
use crate::fts::matching::{distance, matches_pattern, regex_matches};
use crate::fts::query::{
    all_fields, any_word, every_word, field_parts, follows, holds, holds_all, leaf_score, phrase_found,
    phrase_parts, phrase_score, stands_at, stat_of, term_parts, word_test, FtsQuery, TestView,
};
use crate::fts::scores::ScorePart;
use crate::fts::search::{page_end, page_start, search_error, shown};
use crate::json::Json;
use crate::text::texts;
use crate::unicode::lowercase_of;
use vstd::prelude::*;

verus! {

// ---- Phrases ----

/// Whether a document holds words at consecutive positions from `p` on.
pub open spec fn holds_row(
    v: IndexView,
    field: Seq<char>,
    words: Seq<TokenView>,
    doc: Seq<char>,
    p: int,
) -> bool {
    forall|i: int|
        0 <= i < words.len() ==> {
            let term = (#[trigger] words[i]).text;
            &&& v.fields.contains_key(field)
            &&& v.fields[field].postings.contains_key(term)
            &&& v.fields[field].postings[term].contains_key(doc)
            &&& 0 <= p + i <= u32::MAX
            &&& v.fields[field].postings[term][doc].contains((p + i) as u32)
        }
}

proof fn lemma_positions(index: InvertedIndex, field: Seq<char>, term: Seq<char>, doc: Seq<char>)
    requires
        index.fields@.contains_key(field),
        holds(index.fields@[field], term, doc),
    ensures
        index@.fields.contains_key(field),
        index@.fields[field].postings.contains_key(term),
        index@.fields[field].postings[term].contains_key(doc),
        index@.fields[field].postings[term][doc] == index.fields@[field].postings@[term]@[doc]@,
{
}

proof fn lemma_stands_at(positions: Seq<u32>, place: int)
    ensures
        stands_at(positions, place) <==> 0 <= place <= u32::MAX && positions.contains(place as u32),
{
    if stands_at(positions, place) {
        let i = choose|i: int| 0 <= i < positions.len() && #[trigger] positions[i] as int == place;
        assert(positions[i] == place as u32);
    }
    if 0 <= place <= u32::MAX && positions.contains(place as u32) {
        let i = choose|i: int| 0 <= i < positions.len() && positions[i] == place as u32;
        assert(positions[i] as int == place);
    }
}

/// A phrase finds a document if and only if there is a position from which on its words stand one
/// directly after the other.
pub proof fn law_phrases_stand_in_a_row(
    index: InvertedIndex,
    field: Seq<char>,
    words: Seq<TokenView>,
    doc: Seq<char>,
)
    requires
        index.wf(),
        words.len() > 0,
    ensures
        phrase_score(index, field, words, doc).len() > 0 <==> exists|p: int| #[trigger]
            holds_row(index@, field, words, doc, p),
{
    let f = index.fields@[field];
    let n = words.len() as int;
    if phrase_score(index, field, words, doc).len() > 0 {
        assert(phrase_found(f, words, doc));
        let first = f.postings@[words[0].text]@[doc]@;
        let s = choose|s: int|
            0 <= s < first.len() && follows(f, words, doc, #[trigger] first[s] as int);
        let p = first[s] as int;
        assert(holds_row(index@, field, words, doc, p)) by {
            assert forall|i: int| 0 <= i < n implies {
                let term = (#[trigger] words[i]).text;
                &&& index@.fields.contains_key(field)
                &&& index@.fields[field].postings.contains_key(term)
                &&& index@.fields[field].postings[term].contains_key(doc)
                &&& 0 <= p + i <= u32::MAX
                &&& index@.fields[field].postings[term][doc].contains((p + i) as u32)
            } by {
                let term = words[i].text;
                assert(holds(f, term, doc));
                lemma_positions(index, field, term, doc);
                lemma_stands_at(f.postings@[term]@[doc]@, p + i);
                if i == 0 {
                    assert(first[s] == (p + i) as u32);
                }
            }
        }
    }
    if exists|p: int| #[trigger] holds_row(index@, field, words, doc, p) {
        let p = choose|p: int| #[trigger] holds_row(index@, field, words, doc, p);
        assert(words[0].text == words[0].text);
        assert(index@.fields.contains_key(field));
        assert forall|i: int| 0 <= i < n implies holds(f, (#[trigger] words[i]).text, doc) by {}
        assert(holds_all(f, words, doc));
        assert forall|i: int| 1 <= i < n implies stands_at(
            f.postings@[(#[trigger] words[i]).text]@[doc]@,
            p + i,
        ) by {
            let term = words[i].text;
            lemma_positions(index, field, term, doc);
            lemma_stands_at(f.postings@[term]@[doc]@, p + i);
        }
        let first = f.postings@[words[0].text]@[doc]@;
        lemma_positions(index, field, words[0].text, doc);
        let s = choose|s: int| 0 <= s < first.len() && first[s] == p as u32;
        assert(follows(f, words, doc, first[s] as int));
        assert(phrase_found(f, words, doc));
        assert(phrase_parts(f, index.total_docs, words, doc, n).len() > 0);
    }
}

/// Whether a document is nowhere in the index of a field.
pub open spec fn is_new(f: FieldView, doc: Seq<char>) -> bool {
    forall|t: Seq<char>|
        f.postings.contains_key(t) ==> !(#[trigger] f.postings[t]).contains_key(doc)
}

/// The positions of a word among the first `k` tokens.
pub open spec fn positions_among(tokens: Seq<TokenView>, term: Seq<char>, k: int) -> Seq<u32> {
    tokens.take(k).filter(|t: TokenView| t.text == term).map_values(|t: TokenView| t.position as u32)
}

proof fn lemma_positions_among(tokens: Seq<TokenView>, term: Seq<char>, k: int)
    requires
        0 < k <= tokens.len(),
    ensures
        tokens[k - 1].text == term ==> positions_among(tokens, term, k) == positions_among(
            tokens,
            term,
            k - 1,
        ).push(tokens[k - 1].position as u32),
        tokens[k - 1].text != term ==> positions_among(tokens, term, k) == positions_among(
            tokens,
            term,
            k - 1,
        ),
{
    reveal(Seq::filter);
    assert(tokens.take(k).drop_last() =~= tokens.take(k - 1));
    assert(tokens.take(k).last() == tokens[k - 1]);
    if tokens[k - 1].text == term {
        assert(positions_among(tokens, term, k) =~= positions_among(tokens, term, k - 1).push(
            tokens[k - 1].position as u32,
        ));
    }
}

/// Whether the index of a field has a document under a term.
pub open spec fn records(f: FieldView, term: Seq<char>, doc: Seq<char>) -> bool {
    f.postings.contains_key(term) && f.postings[term].contains_key(doc)
}

proof fn lemma_others_keep_positions(f: FieldView, doc: Seq<char>, tokens: Seq<TokenView>, k: int)
    ensures
        forall|term: Seq<char>, other: Seq<char>|
            other != doc ==> (#[trigger] records(f.with_tokens(doc, tokens, k), term, other)
                <==> records(f, term, other)),
        forall|term: Seq<char>, other: Seq<char>|
            #![trigger f.with_tokens(doc, tokens, k).postings[term][other]]
            other != doc && records(f, term, other) ==> f.with_tokens(
                doc,
                tokens,
                k,
            ).postings[term][other] == f.postings[term][other],
        f.with_tokens(doc, tokens, k).lengths == f.lengths,
    decreases k,
{
    if k > 0 {
        lemma_others_keep_positions(f, doc, tokens, k - 1);
        let h = f.with_tokens(doc, tokens, k - 1);
        let g = f.with_tokens(doc, tokens, k);
        assert(g == h.posted(doc, tokens[k - 1].text, tokens[k - 1].position as u32));
        assert forall|term: Seq<char>, other: Seq<char>| other != doc implies (#[trigger] records(
            g,
            term,
            other,
        ) <==> records(f, term, other)) by {
            assert(records(h, term, other) == records(g, term, other));
        }
        assert forall|term: Seq<char>, other: Seq<char>|
            #![trigger g.postings[term][other]]
            other != doc && records(f, term, other) implies g.postings[term][other]
            == f.postings[term][other] by {
            assert(records(h, term, other));
            assert(h.postings[term][other] == f.postings[term][other]);
        }
    }
}

/// Indexing the tokens of a new document records for each word the positions at which it stands, in
/// order, and leaves every other document as it was.
pub proof fn law_postings_are_the_positions(f: FieldView, doc: Seq<char>, tokens: Seq<TokenView>, k: int)
    requires
        is_new(f, doc),
        0 <= k <= tokens.len(),
    ensures
        ({
            let g = f.with_tokens(doc, tokens, k);
            &&& g.lengths == f.lengths
            &&& forall|term: Seq<char>| #[trigger]
                positions_among(tokens, term, k).len() > 0 <==> g.postings.contains_key(term)
                    && g.postings[term].contains_key(doc)
            &&& forall|term: Seq<char>|
                g.postings.contains_key(term) && g.postings[term].contains_key(doc)
                    ==> g.postings[term][doc] == #[trigger] positions_among(tokens, term, k)
            &&& forall|term: Seq<char>, other: Seq<char>|
                other != doc ==> (#[trigger] records(g, term, other) <==> records(f, term, other))
            &&& forall|term: Seq<char>, other: Seq<char>|
                other != doc && records(f, term, other) ==> #[trigger] g.postings[term][other]
                    == f.postings[term][other]
        }),
    decreases k,
{
    let g = f.with_tokens(doc, tokens, k);
    if k == 0 {
        reveal(Seq::filter);
        assert forall|term: Seq<char>| (#[trigger] positions_among(tokens, term, k)).len() == 0 by {
            assert(tokens.take(0) =~= Seq::<TokenView>::empty());
        }
        assert forall|term: Seq<char>| #[trigger]
            positions_among(tokens, term, k).len() > 0 <==> g.postings.contains_key(term)
                && g.postings[term].contains_key(doc) by {
            if g.postings.contains_key(term) {
                assert(!f.postings[term].contains_key(doc));
            }
        }
    } else {
        law_postings_are_the_positions(f, doc, tokens, k - 1);
        let h = f.with_tokens(doc, tokens, k - 1);
        let word = tokens[k - 1].text;
        assert forall|term: Seq<char>| #[trigger]
            positions_among(tokens, term, k).len() > 0 <==> g.postings.contains_key(term)
                && g.postings[term].contains_key(doc) by {
            lemma_positions_among(tokens, term, k);
            assert(positions_among(tokens, term, k - 1).len() > 0 <==> h.postings.contains_key(term)
                && h.postings[term].contains_key(doc));
        }
        assert forall|term: Seq<char>|
            g.postings.contains_key(term) && g.postings[term].contains_key(doc) implies
            g.postings[term][doc] == #[trigger] positions_among(tokens, term, k) by {
            lemma_positions_among(tokens, term, k);
            assert(positions_among(tokens, term, k - 1).len() > 0 <==> h.postings.contains_key(term)
                && h.postings[term].contains_key(doc));
            if term == word {
                if positions_among(tokens, term, k - 1).len() == 0 {
                    assert(positions_among(tokens, term, k - 1) =~= Seq::<u32>::empty());
                }
            }
        }
    }
    lemma_others_keep_positions(f, doc, tokens, k);
}

/// Whether words stand in a text, as tokens directly after one another from token `s` on.
pub open spec fn window(tokens: Seq<TokenView>, words: Seq<TokenView>, s: int) -> bool {
    &&& 0 <= s
    &&& s + words.len() <= tokens.len()
    &&& forall|i: int| 0 <= i < words.len() ==> tokens[s + i].text == (#[trigger] words[i]).text
}

proof fn lemma_position_means_token(tokens: Seq<TokenView>, term: Seq<char>, k: int, p: int)
    requires
        0 <= k <= tokens.len() <= u32::MAX,
        forall|i: int| 0 <= i < tokens.len() ==> (#[trigger] tokens[i]).position == i,
        0 <= p <= u32::MAX,
    ensures
        positions_among(tokens, term, k).contains(p as u32) <==> p < k && tokens[p].text == term,
    decreases k,
{
    reveal(Seq::filter);
    let all = positions_among(tokens, term, k);
    if k == 0 {
        assert(tokens.take(0) =~= Seq::<TokenView>::empty());
    } else {
        lemma_position_means_token(tokens, term, k - 1, p);
        lemma_positions_among(tokens, term, k);
        let rest = positions_among(tokens, term, k - 1);
        assert(tokens[k - 1].position == k - 1);
        if tokens[k - 1].text == term {
            assert(all == rest.push((k - 1) as u32));
            if rest.contains(p as u32) {
                let i = choose|i: int| 0 <= i < rest.len() && rest[i] == p as u32;
                assert(all[i] == p as u32);
            }
            if p == k - 1 {
                assert(all[rest.len() as int] == p as u32);
            }
            if all.contains(p as u32) {
                let i = choose|i: int| 0 <= i < all.len() && all[i] == p as u32;
                if i < rest.len() {
                    assert(rest[i] == p as u32);
                }
            }
        }
    }
}

/// A phrase finds a text that was indexed exactly where its words are a run of consecutive tokens of
/// that text.
pub proof fn law_phrases_are_runs_of_the_text(
    index: InvertedIndex,
    prior: FieldView,
    field: Seq<char>,
    doc: Seq<char>,
    text: Seq<char>,
    analyzer: AnalyzerView,
    words: Seq<TokenView>,
)
    requires
        index.wf(),
        index@.fields.contains_key(field),
        index@.fields[field] == prior.with_document(doc, tokens_of(text, analyzer)),
        is_new(prior, doc),
        tokens_of(text, analyzer).len() <= u32::MAX,
        words.len() > 0,
    ensures
        phrase_score(index, field, words, doc).len() > 0 <==> exists|s: int| #[trigger]
            window(tokens_of(text, analyzer), words, s),
{
    let tokens = tokens_of(text, analyzer);
    let n = tokens.len() as int;
    law_positions_count_up(text, analyzer);
    law_postings_are_the_positions(prior, doc, tokens, n);
    law_phrases_stand_in_a_row(index, field, words, doc);
    let g = prior.with_tokens(doc, tokens, n);
    assert(index@.fields[field].postings == g.postings);
    assert forall|p: int| #[trigger] holds_row(index@, field, words, doc, p) implies window(
        tokens,
        words,
        p,
    ) by {
        assert forall|i: int| 0 <= i < words.len() implies p + i < n && tokens[p + i].text == (
        #[trigger] words[i]).text by {
            let term = words[i].text;
            assert(g.postings[term][doc] == positions_among(tokens, term, n));
            lemma_position_means_token(tokens, term, n, p + i);
        }
        let last = words.len() - 1;
        assert(p + last < n && tokens[p + last].text == words[last].text);
        assert(words[0].text == words[0].text);
    }
    assert forall|s: int| #[trigger] window(tokens, words, s) implies holds_row(
        index@,
        field,
        words,
        doc,
        s,
    ) by {
        assert forall|i: int| 0 <= i < words.len() implies {
            let term = (#[trigger] words[i]).text;
            &&& g.postings.contains_key(term)
            &&& g.postings[term].contains_key(doc)
            &&& g.postings[term][doc].contains((s + i) as u32)
        } by {
            let term = words[i].text;
            assert(tokens[s + i].text == term);
            lemma_position_means_token(tokens, term, n, s + i);
            assert(positions_among(tokens, term, n).len() > 0);
            assert(g.postings[term][doc] == positions_among(tokens, term, n));
        }
    }
    if exists|p: int| #[trigger] holds_row(index@, field, words, doc, p) {
        let p = choose|p: int| #[trigger] holds_row(index@, field, words, doc, p);
        assert(window(tokens, words, p));
    }
    if exists|s: int| #[trigger] window(tokens, words, s) {
        let s = choose|s: int| #[trigger] window(tokens, words, s);
        assert(holds_row(index@, field, words, doc, s));
    }
}

/// A document that was indexed has as many tokens in the field as its text, and the other documents
/// keep theirs.
pub proof fn law_lengths_are_counted(f: FieldView, doc: Seq<char>, tokens: Seq<TokenView>, other: Seq<char>)
    requires
        tokens.len() <= usize::MAX,
        is_new(f, doc),
    ensures
        f.with_document(doc, tokens).lengths.contains_key(doc),
        f.with_document(doc, tokens).lengths[doc] == tokens.len(),
        other != doc ==> (f.with_document(doc, tokens).lengths.contains_key(other)
            == f.lengths.contains_key(other)),
        other != doc && f.lengths.contains_key(other) ==> f.with_document(doc, tokens).lengths[other]
            == f.lengths[other],
        f.with_document(doc, tokens).postings == f.with_tokens(
            doc,
            tokens,
            tokens.len() as int,
        ).postings,
{
    law_postings_are_the_positions(f, doc, tokens, tokens.len() as int);
}

/// Taking a document out of a field leaves the others where they were: their positions and their
/// lengths stay, and a term stays exactly as long as another document holds it.
pub proof fn law_removal_leaves_the_others(
    f: FieldView,
    doc: Seq<char>,
    term: Seq<char>,
    other: Seq<char>,
)
    requires
        other != doc,
    ensures
        ({
            let g = f.without(doc);
            &&& f.postings.contains_key(term) && f.postings[term].contains_key(other)
                ==> g.postings.contains_key(term) && g.postings[term].contains_key(other)
                && g.postings[term][other] == f.postings[term][other]
            &&& g.postings.contains_key(term) && g.postings[term].contains_key(other)
                ==> f.postings.contains_key(term) && f.postings[term].contains_key(other)
            &&& g.postings.contains_key(term) ==> !g.postings[term].contains_key(doc)
            &&& g.postings.contains_key(term) ==> exists|d: Seq<char>| #[trigger]
                g.postings[term].contains_key(d)
            &&& !g.lengths.contains_key(doc)
            &&& f.lengths.contains_key(other) ==> g.lengths.contains_key(other) && g.lengths[other]
                == f.lengths[other]
        }),
{
    let g = f.without(doc);
    if f.postings.contains_key(term) && f.postings[term].contains_key(other) {
        assert(f.outlives(term, doc));
    }
    if g.postings.contains_key(term) {
        let d = choose|d: Seq<char>| d != doc && #[trigger] f.postings[term].contains_key(d);
        assert(g.postings[term].contains_key(d));
    }
}

// ---- Queries of one field ----

/// A query for a term finds the documents that hold it.
pub proof fn law_term_queries(index: InvertedIndex, def: DefinitionView, q: FtsQuery, doc: Seq<char>)
    requires
        index.wf(),
        q is Term,
        q->Term_field@ != "_all"@,
    ensures
        finds(index, def, q, doc) <==> posted(index@.fields, q->Term_field@, q->term@, doc),
{
    law_terms_are_found(index, q->Term_field@, TestView::Exact(q->term@), doc);
    assert(TestView::Exact(q->term@).accepts(q->term@));
}

/// A query for a prefix finds the documents with a term that begins with it, in lower case.
pub proof fn law_prefix_queries(index: InvertedIndex, def: DefinitionView, q: FtsQuery, doc: Seq<char>)
    requires
        index.wf(),
        q is Prefix,
        q->Prefix_field@ != "_all"@,
    ensures
        finds(index, def, q, doc) <==> exists|rest: Seq<char>| #[trigger]
            posted(index@.fields, q->Prefix_field@, lowercase_of(q->prefix@) + rest, doc),
{
    let p = lowercase_of(q->prefix@);
    let test = TestView::Starting(p);
    let field = q->Prefix_field@;
    law_terms_are_found(index, field, test, doc);
    if finds(index, def, q, doc) {
        let term = choose|term: Seq<char>|
            test.accepts(term) && #[trigger] posted(index@.fields, field, term, doc);
        let rest = term.skip(p.len() as int);
        assert(p + rest =~= term) by {
            assert(term.subrange(0, p.len() as int) == p);
            assert forall|i: int| 0 <= i < p.len() implies p[i] == term[i] by {
                assert(term.subrange(0, p.len() as int)[i] == term[i]);
            }
        }
        assert(posted(index@.fields, field, p + rest, doc));
    }
    if exists|rest: Seq<char>| #[trigger] posted(index@.fields, field, p + rest, doc) {
        let rest = choose|rest: Seq<char>| #[trigger]
            posted(index@.fields, field, p + rest, doc);
        assert((p + rest).subrange(0, p.len() as int) =~= p);
        assert(test.accepts(p + rest));
    }
}

/// A query with wildcards finds the documents with a term that matches them, in lower case; one with
/// a regular expression those with a term that matches it as it stands.
pub proof fn law_pattern_queries(index: InvertedIndex, def: DefinitionView, q: FtsQuery, doc: Seq<char>)
    requires
        index.wf(),
    ensures
        q is Wildcard && q->Wildcard_field@ != "_all"@ ==> (finds(index, def, q, doc) <==> exists|
            term: Seq<char>,
        |
            matches_pattern(lowercase_of(q->wildcard@), term) && #[trigger] posted(
                index@.fields,
                q->Wildcard_field@,
                term,
                doc,
            )),
        q is Regexp && q->Regexp_field@ != "_all"@ ==> (finds(index, def, q, doc) <==> exists|
            term: Seq<char>,
        |
            regex_matches(q->regexp@, term) && #[trigger] posted(
                index@.fields,
                q->Regexp_field@,
                term,
                doc,
            )),
{
    if q is Wildcard {
        let test = TestView::Wild(lowercase_of(q->wildcard@));
        law_terms_are_found(index, q->Wildcard_field@, test, doc);
        assert(forall|t: Seq<char>|
            #[trigger] test.accepts(t) == matches_pattern(lowercase_of(q->wildcard@), t));
    }
    if q is Regexp {
        let test = TestView::Regular(q->regexp@);
        law_terms_are_found(index, q->Regexp_field@, test, doc);
        assert(forall|t: Seq<char>| #[trigger] test.accepts(t) == regex_matches(q->regexp@, t));
    }
}

/// Whether a document has a term within an edit distance of a word.
pub open spec fn has_near(
    v: IndexView,
    field: Seq<char>,
    word: Seq<char>,
    fuzziness: usize,
    doc: Seq<char>,
) -> bool {
    exists|term: Seq<char>|
        distance(word, term) <= fuzziness && #[trigger] posted(v.fields, field, term, doc)
}

proof fn lemma_word_found(
    index: InvertedIndex,
    field: Seq<char>,
    word: Seq<char>,
    fuzziness: usize,
    doc: Seq<char>,
)
    requires
        index.wf(),
    ensures
        field_parts(index, field, word_test(word, fuzziness), doc).len() > 0 <==> has_near(
            index@,
            field,
            word,
            fuzziness,
            doc,
        ),
{
    let test = word_test(word, fuzziness);
    law_terms_are_found(index, field, test, doc);
    crate::fts::matching::law_distance_to_itself(word);
    if field_parts(index, field, test, doc).len() > 0 {
        let term = choose|term: Seq<char>|
            test.accepts(term) && #[trigger] posted(index@.fields, field, term, doc);
        assert(distance(word, term) <= fuzziness);
    }
    if has_near(index@, field, word, fuzziness, doc) {
        let term = choose|term: Seq<char>|
            distance(word, term) <= fuzziness && #[trigger] posted(
                index@.fields,
                field,
                term,
                doc,
            );
        if fuzziness == 0 {
            crate::fts::matching::law_distance_zero_means_equal(word, term);
        }
        assert(test.accepts(term));
    }
}

proof fn lemma_any_word(
    index: InvertedIndex,
    field: Seq<char>,
    words: Seq<TokenView>,
    fuzziness: usize,
    doc: Seq<char>,
    k: int,
)
    requires
        index.wf(),
        0 <= k <= words.len(),
    ensures
        any_word(index, field, words, fuzziness, doc, k).len() > 0 <==> exists|i: int|
            0 <= i < k && has_near(index@, field, (#[trigger] words[i]).text, fuzziness, doc),
    decreases k,
{
    if k > 0 {
        lemma_any_word(index, field, words, fuzziness, doc, k - 1);
        lemma_word_found(index, field, words[k - 1].text, fuzziness, doc);
        let last = field_parts(index, field, word_test(words[k - 1].text, fuzziness), doc);
        let rest = any_word(index, field, words, fuzziness, doc, k - 1);
        assert(any_word(index, field, words, fuzziness, doc, k) == rest + last);
        if rest.len() > 0 {
            let i = choose|i: int|
                0 <= i < k - 1 && has_near(
                    index@,
                    field,
                    (#[trigger] words[i]).text,
                    fuzziness,
                    doc,
                );
            assert(has_near(index@, field, words[i].text, fuzziness, doc));
        }
        if last.len() > 0 {
            assert(has_near(index@, field, words[k - 1].text, fuzziness, doc));
        }
    }
}

proof fn lemma_every_word(
    index: InvertedIndex,
    field: Seq<char>,
    words: Seq<TokenView>,
    fuzziness: usize,
    doc: Seq<char>,
    k: int,
)
    requires
        index.wf(),
        0 < k <= words.len(),
    ensures
        every_word(index, field, words, fuzziness, doc, k).len() > 0 <==> forall|i: int|
            0 <= i < k ==> has_near(index@, field, (#[trigger] words[i]).text, fuzziness, doc),
    decreases k,
{
    lemma_word_found(index, field, words[k - 1].text, fuzziness, doc);
    if k > 1 {
        lemma_every_word(index, field, words, fuzziness, doc, k - 1);
        if every_word(index, field, words, fuzziness, doc, k).len() > 0 {
            assert forall|i: int| 0 <= i < k implies has_near(
                index@,
                field,
                (#[trigger] words[i]).text,
                fuzziness,
                doc,
            ) by {
                if i == k - 1 {
                    assert(has_near(index@, field, words[k - 1].text, fuzziness, doc));
                }
            }
        }
    } else {
        assert(every_word(index, field, words, fuzziness, doc, 1) == field_parts(
            index,
            field,
            word_test(words[0].text, fuzziness),
            doc,
        ));
    }
}

/// A query for the words of a text finds the documents that have any of them, or all of them where
/// the operator is `and`. A word is there if a term is as near to it as the fuzziness says; without
/// fuzziness, if it is there itself.
pub proof fn law_match_queries(index: InvertedIndex, def: DefinitionView, q: FtsQuery, doc: Seq<char>)
    requires
        index.wf(),
        q is Match,
        q->Match_field@ != "_all"@,
        tokens_of(q->Match_query@, def.analyzer_of(q->Match_field@)).len() > 0,
    ensures
        ({
            let field = q->Match_field@;
            let words = tokens_of(q->Match_query@, def.analyzer_of(field));
            if q->operator is Some && q->operator->0@ == "and"@ {
                finds(index, def, q, doc) <==> forall|i: int|
                    0 <= i < words.len() ==> has_near(
                        index@,
                        field,
                        (#[trigger] words[i]).text,
                        q->fuzziness,
                        doc,
                    )
            } else {
                finds(index, def, q, doc) <==> exists|i: int|
                    0 <= i < words.len() && has_near(
                        index@,
                        field,
                        (#[trigger] words[i]).text,
                        q->fuzziness,
                        doc,
                    )
            }
        }),
{
    let field = q->Match_field@;
    let words = tokens_of(q->Match_query@, def.analyzer_of(field));
    let n = words.len() as int;
    lemma_any_word(index, field, words, q->fuzziness, doc, n);
    lemma_every_word(index, field, words, q->fuzziness, doc, n);
}

/// Without fuzziness a word is near only where it is there itself.
pub proof fn law_no_fuzziness_means_the_word(
    v: IndexView,
    field: Seq<char>,
    word: Seq<char>,
    doc: Seq<char>,
)
    ensures
        has_near(v, field, word, 0, doc) <==> posted(v.fields, field, word, doc),
{
    crate::fts::matching::law_distance_to_itself(word);
    if has_near(v, field, word, 0, doc) {
        let term = choose|term: Seq<char>|
            distance(word, term) <= 0 && #[trigger] posted(v.fields, field, term, doc);
        crate::fts::matching::law_distance_zero_means_equal(word, term);
    }
}

/// A phrase query is about the tokens of its text, and finds them in a row.
pub proof fn law_phrase_queries(index: InvertedIndex, def: DefinitionView, q: FtsQuery, doc: Seq<char>)
    requires
        index.wf(),
        q is MatchPhrase,
        q->MatchPhrase_field@ != "_all"@,
    ensures
        ({
            let field = q->MatchPhrase_field@;
            let words = tokens_of(q->MatchPhrase_query@, def.analyzer_of(field));
            finds(index, def, q, doc) <==> words.len() > 0 && exists|p: int| #[trigger]
                holds_row(index@, field, words, doc, p)
        }),
{
    let field = q->MatchPhrase_field@;
    let words = tokens_of(q->MatchPhrase_query@, def.analyzer_of(field));
    if words.len() > 0 {
        law_phrases_stand_in_a_row(index, field, words, doc);
    }
}

/// A query for a range finds the documents whose stored text of the field is in it.
pub proof fn law_range_queries(index: InvertedIndex, def: DefinitionView, q: FtsQuery, doc: Seq<char>)
    requires
        q is NumericRange,
        q->NumericRange_field@ != "_all"@,
    ensures
        finds(index, def, q, doc) <==> index@.stored.contains_key(doc)
            && index@.stored[doc].contains_key(q->NumericRange_field@) && exists|i: int|
            0 <= i < q->inside@.len() && (#[trigger] q->inside@[i])@
                == index@.stored[doc][q->NumericRange_field@],
{
    let name = q->NumericRange_field@;
    let list = texts(q->inside@);
    if index@.stored.contains_key(doc) && index@.stored[doc].contains_key(name) {
        let x = index@.stored[doc][name];
        if list.contains(x) {
            let i = choose|i: int| 0 <= i < list.len() && list[i] == x;
            assert(q->inside@[i]@ == x);
        }
        if exists|i: int| 0 <= i < q->inside@.len() && (#[trigger] q->inside@[i])@ == x {
            let i = choose|i: int| 0 <= i < q->inside@.len() && (#[trigger] q->inside@[i])@ == x;
            assert(list[i] == x);
        }
    }
}

proof fn lemma_all_fields(index: InvertedIndex, def: DefinitionView, q: FtsQuery, doc: Seq<char>, k: int)
    requires
        0 <= k <= index.fields.keys@.len(),
    ensures
        all_fields(index, def, q, doc, k).len() > 0 <==> exists|i: int|
            0 <= i < k && leaf_score(index, def, q, (#[trigger] index.fields.keys@[i])@, doc).len()
                > 0,
    decreases k,
{
    if k > 0 {
        lemma_all_fields(index, def, q, doc, k - 1);
        let last = leaf_score(index, def, q, index.fields.keys@[k - 1]@, doc);
        assert(all_fields(index, def, q, doc, k) == all_fields(index, def, q, doc, k - 1) + last);
    }
}

/// A query of the field `_all` finds what the same query finds in any of the indexed fields.
pub proof fn law_all_means_every_field(
    index: InvertedIndex,
    def: DefinitionView,
    q: FtsQuery,
    doc: Seq<char>,
)
    requires
        index.wf(),
        crate::fts::query::field_of(q) == Some("_all"@),
    ensures
        finds(index, def, q, doc) <==> exists|field: Seq<char>| #[trigger]
            index@.fields.contains_key(field) && leaf_score(index, def, q, field, doc).len() > 0,
{
    let n = index.fields.keys@.len() as int;
    lemma_all_fields(index, def, q, doc, n);
    if finds(index, def, q, doc) {
        let i = choose|i: int|
            0 <= i < n && leaf_score(index, def, q, (#[trigger] index.fields.keys@[i])@, doc).len()
                > 0;
        index.fields.lemma_place(i);
        assert(index@.fields.contains_key(index.fields.keys@[i]@));
    }
    if exists|field: Seq<char>| #[trigger]
        index@.fields.contains_key(field) && leaf_score(index, def, q, field, doc).len() > 0 {
        let field = choose|field: Seq<char>| #[trigger]
            index@.fields.contains_key(field) && leaf_score(index, def, q, field, doc).len() > 0;
        let p = choose|p: int| index.fields.at(field, p);
        assert(index.fields.keys@[p]@ == field);
    }
}

// ---- Weights ----

proof fn lemma_one_term(f: FieldIndex, total: usize, term: Seq<char>, doc: Seq<char>, k: int)
    requires
        f.postings.wf(),
        0 <= k <= f.postings.keys@.len(),
    ensures
        ({
            let parts = term_parts(f, total, TestView::Exact(term), doc, k);
            if holds(f, term, doc) && f.postings.place(term) < k {
                parts == seq![ScorePart::Term(stat_of(f, total, term, doc))]
            } else {
                parts == Seq::<ScorePart>::empty()
            }
        }),
    decreases k,
{
    if k > 0 {
        lemma_one_term(f, total, term, doc, k - 1);
        f.postings.lemma_place(k - 1);
        if holds(f, term, doc) {
            let p = f.postings.place(term);
            assert(f.postings.at(term, p));
            if f.postings.keys@[k - 1]@ == term {
                assert(p == k - 1);
                assert(Seq::<ScorePart>::empty().push(ScorePart::Term(stat_of(f, total, term, doc)))
                    =~= seq![ScorePart::Term(stat_of(f, total, term, doc))]);
            } else {
                assert(p != k - 1);
            }
        }
    }
}

/// A term counts once in the score of a document that holds it, with how often it occurs there, in
/// how many documents it occurs, how long the document is, and how many documents there are.
pub proof fn law_terms_are_weighed_by_their_counts(
    index: InvertedIndex,
    field: Seq<char>,
    term: Seq<char>,
    doc: Seq<char>,
)
    requires
        index.wf(),
        posted(index@.fields, field, term, doc),
        index@.fields[field].postings[term][doc].len() <= usize::MAX,
        index@.fields[field].postings[term].len() <= usize::MAX,
    ensures
        ({
            let parts = field_parts(index, field, TestView::Exact(term), doc);
            let f = index@.fields[field];
            &&& parts.len() == 1
            &&& parts[0] is Term
            &&& parts[0]->Term_0.tf == f.postings[term][doc].len()
            &&& parts[0]->Term_0.df == f.postings[term].len()
            &&& f.lengths.contains_key(doc) ==> parts[0]->Term_0.doc_len == Some(f.lengths[doc])
            &&& !f.lengths.contains_key(doc) ==> parts[0]->Term_0.doc_len is None
            &&& parts[0]->Term_0.total_docs == index@.total_docs
            &&& parts[0]->Term_0.average == index.fields@[field].average
        }),
{
    let f = index.fields@[field];
    let p = index.fields.place(field);
    assert(index.fields.at(field, p));
    assert(index.fields.vals@[p].wf());
    assert(holds(f, term, doc));
    let q = f.postings.place(term);
    assert(f.postings.at(term, q));
    lemma_one_term(f, index.total_docs, term, doc, f.postings.keys@.len() as int);
    assert(f.postings.vals@[q].wf());
    f.postings@[term].lemma_len();
    assert(index@.fields[field].postings[term].dom() =~= f.postings@[term]@.dom());
    lemma_positions(index, field, term, doc);
}

/// Each word of a phrase that is found counts once, as a word of a phrase.
pub proof fn law_phrases_weigh_every_word(
    index: InvertedIndex,
    field: Seq<char>,
    words: Seq<TokenView>,
    doc: Seq<char>,
    k: int,
)
    requires
        index.fields@.contains_key(field),
        0 <= k <= words.len(),
    ensures
        ({
            let f = index.fields@[field];
            let parts = phrase_parts(f, index.total_docs, words, doc, k);
            &&& parts.len() == k
            &&& forall|i: int|
                0 <= i < k ==> #[trigger] parts[i] == ScorePart::PhraseTerm(
                    stat_of(f, index.total_docs, words[i].text, doc),
                )
        }),
    decreases k,
{
    if k > 0 {
        law_phrases_weigh_every_word(index, field, words, doc, k - 1);
    }
}

// ---- Documents ----

proof fn lemma_stored(
    start: Filling,
    def: DefinitionView,
    mappings: Seq<MappingView>,
    value: Json,
    doc: Seq<char>,
    k: int,
    field: Seq<char>,
)
    requires
        0 <= k <= mappings.len(),
    ensures
        ({
            let end = start.with_fields(def, mappings, value, doc, k);
            end.stored.contains_key(field) <==> start.stored.contains_key(field) || exists|i: int|
                0 <= i < k && (#[trigger] mappings[i]).field == field && mappings[i].store
                    && match content_at(value, field) {
                    FieldContent::Nothing => false,
                    FieldContent::Number(t) => true,
                    FieldContent::Words(t) => t.len() > 0,
                }
        }),
        !start.stored.contains_key(field) ==> {
            let end = start.with_fields(def, mappings, value, doc, k);
            end.stored.contains_key(field) ==> match content_at(value, field) {
                FieldContent::Nothing => false,
                FieldContent::Number(t) => end.stored[field] == t,
                FieldContent::Words(t) => end.stored[field] == t,
            }
        },
    decreases k,
{
    if k > 0 {
        lemma_stored(start, def, mappings, value, doc, k - 1, field);
        let m = mappings[k - 1];
        let before = start.with_fields(def, mappings, value, doc, k - 1);
        let end = start.with_fields(def, mappings, value, doc, k);
        if before.stored.contains_key(field) && !start.stored.contains_key(field) {
            let i = choose|i: int|
                0 <= i < k - 1 && (#[trigger] mappings[i]).field == field && mappings[i].store;
            assert(mappings[i].field == field);
        }
        if end.stored.contains_key(field) && !before.stored.contains_key(field) {
            assert(m.field == field && m.store);
        }
        if start.stored.contains_key(field) {
            assert(end.stored.contains_key(field));
        }
    }
}

/// A document keeps the texts and numbers of the fields that are to be stored, as they are in the
/// document, and of no other fields.
pub proof fn law_fields_are_stored(v: IndexView, def: DefinitionView, doc: Seq<char>, value: Json, field: Seq<char>)
    ensures
        ({
            let after = v.with_document(def, doc, value);
            let mappings = mappings_for(def, value);
            &&& after.stored.contains_key(doc)
            &&& after.stored[doc].contains_key(field) <==> (exists|i: int|
                0 <= i < mappings.len() && (#[trigger] mappings[i]).field == field
                    && mappings[i].store) && match content_at(value, field) {
                FieldContent::Nothing => false,
                FieldContent::Number(t) => true,
                FieldContent::Words(t) => t.len() > 0,
            }
            &&& after.stored[doc].contains_key(field) ==> match content_at(value, field) {
                FieldContent::Nothing => false,
                FieldContent::Number(t) => after.stored[doc][field] == t,
                FieldContent::Words(t) => after.stored[doc][field] == t,
            }
            &&& forall|other: Seq<char>|
                other != doc ==> (#[trigger] after.stored.contains_key(other)
                    == v.stored.contains_key(other)) && (v.stored.contains_key(other)
                    ==> after.stored[other] == v.stored[other])
        }),
{
    let mappings = mappings_for(def, value);
    let start = Filling { fields: v.fields, stored: Map::empty() };
    lemma_stored(start, def, mappings, value, doc, mappings.len() as int, field);
}

/// The fields that are indexed are those of the definition, or, if it names none, those of the
/// document that hold text; such a field is stored.
pub proof fn law_fields_are_those_of_the_definition(def: DefinitionView, value: Json)
    ensures
        def.fields.len() > 0 ==> mappings_for(def, value) == def.fields,
        def.fields.len() == 0 ==> forall|i: int|
            0 <= i < mappings_for(def, value).len() ==> (#[trigger] mappings_for(def, value)[i]).store
                && mappings_for(def, value)[i].analyzer is None,
{
}

/// An index over documents holds those that are not deleted, each under its key.
pub proof fn law_built_index_holds_the_live_documents(
    def: DefinitionView,
    docs: Seq<FtsDocument>,
    k: int,
    doc: Seq<char>,
)
    requires
        0 <= k <= docs.len(),
    ensures
        built(def, docs, k).stored.contains_key(doc) <==> exists|i: int|
            0 <= i < k && !(#[trigger] docs[i]).deleted && docs[i].key@ == doc,
    decreases k,
{
    if k > 0 {
        law_built_index_holds_the_live_documents(def, docs, k - 1, doc);
        if !docs[k - 1].deleted {
            law_fields_are_stored(
                built(def, docs, k - 1),
                def,
                docs[k - 1].key@,
                docs[k - 1].value,
                doc,
            );
        }
    }
}

/// An index follows a bucket exactly where it is over that bucket and online. It then holds a
/// document that was written as it is now, and nothing of one that was deleted; the other documents
/// stay. An index that does not follow the bucket does not change.
pub proof fn law_indexes_follow_their_bucket(
    x: FtsIndexView,
    bucket: Seq<char>,
    doc: Seq<char>,
    value: Json,
    other: Seq<char>,
)
    requires
        other != doc,
    ensures
        ({
            let follows = x.definition.bucket == bucket && x.definition.state
                == FtsIndexState::Online;
            let written = after_upsert(x, bucket, doc, value);
            let deleted = after_delete(x, bucket, doc);
            &&& follows_bucket(x.definition, bucket) == follows
            &&& !follows ==> written == x.data && deleted == x.data
            &&& follows ==> written.stored == x.data.without(doc).with_document(
                x.definition,
                doc,
                value,
            ).stored
            &&& follows ==> written.fields == x.data.without(doc).with_document(
                x.definition,
                doc,
                value,
            ).fields
            &&& follows ==> written.stored.contains_key(doc)
            &&& follows ==> !deleted.stored.contains_key(doc)
            &&& written.stored.contains_key(other) == x.data.stored.contains_key(other)
            &&& deleted.stored.contains_key(other) == x.data.stored.contains_key(other)
            &&& x.data.stored.contains_key(other) ==> written.stored[other] == x.data.stored[other]
                && deleted.stored[other] == x.data.stored[other]
            &&& follows ==> written.total_docs == written.stored.len() as usize
            &&& follows ==> deleted.total_docs == deleted.stored.len() as usize
        }),
{
    law_fields_are_stored(x.data.without(doc), x.definition, doc, value, other);
}

// ---- Results ----

/// A search fails exactly where there is no such index, or it is not online.
pub proof fn law_only_online_indexes_are_searched(
    indexes: Map<Seq<char>, FtsIndexView>,
    name: Seq<char>,
)
    ensures
        search_error(indexes, name) is None <==> indexes.contains_key(name)
            && indexes[name].definition.state == FtsIndexState::Online,
{
}

/// A page starts where it was asked to, has as many results as it was asked for as far as there are
/// any, and the next page starts where it ends.
pub proof fn law_pages_are_as_asked(n: nat, from: usize, size: usize)
    requires
        from + size <= usize::MAX,
    ensures
        0 <= page_start(n as int, from) <= page_end(n as int, from, size) <= n,
        from <= n ==> page_start(n as int, from) == from,
        from >= n ==> page_start(n as int, from) == page_end(n as int, from, size),
        from + size <= n ==> page_end(n as int, from, size) - page_start(n as int, from) == size,
        from <= n < from + size ==> page_end(n as int, from, size) == n,
        page_start(n as int, (from + size) as usize) == page_end(n as int, from, size),
{
}

/// A result shows the stored fields that were asked for, or all where none were, with the texts that
/// were stored.
pub proof fn law_results_show_the_fields_asked_for(
    stored: Map<Seq<char>, Map<Seq<char>, Seq<char>>>,
    doc: Seq<char>,
    fields: Seq<Seq<char>>,
    field: Seq<char>,
)
    ensures
        shown(stored, doc, fields).contains_key(field) <==> stored.contains_key(doc)
            && stored[doc].contains_key(field) && (fields.len() == 0 || fields.contains(field)),
        shown(stored, doc, fields).contains_key(field) ==> shown(stored, doc, fields)[field]
            == stored[doc][field],
{
}

} // verus!
