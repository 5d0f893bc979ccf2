//! What searches find.

use crate::fts::analyzer::{tokens_of, TokenView};
use crate::fts::definition::DefinitionView;
use crate::fts::engine::{
    after_delete, after_upsert, built, follows_bucket, FtsDocument, FtsIndexView,
};
use crate::fts::index::{FieldIndex, FieldView};
use crate::fts::inverted::{
    content_at, field_or_fresh, mappings_for, Filling, IndexView, InvertedIndex,
};
use crate::json::Json;
use crate::fts::json::{FieldContent, MappingView};
use crate::fts::query::{
    all_fields, any_word, every_word, field_of, field_parts, holds, leaf_score, phrase_score, score,
    score_all, score_any, term_parts, word_test, FtsQuery, TestView,
};
use vstd::prelude::*;

verus! {

/// Whether a document holds a term in a field.
pub open spec fn posted(fields: Map<Seq<char>, FieldView>, field: Seq<char>, term: Seq<char>, doc: Seq<char>) -> bool {
    &&& fields.contains_key(field)
    &&& fields[field].postings.contains_key(term)
    &&& fields[field].postings[term].contains_key(doc)
}

/// Whether the index speaks of its own documents only.
pub open spec fn keeps_to_documents(v: IndexView) -> bool {
    forall|field: Seq<char>, term: Seq<char>, doc: Seq<char>| #[trigger]
        posted(v.fields, field, term, doc) ==> v.stored.contains_key(doc)
}

/// Whether a query finds a document.
pub open spec fn finds(index: InvertedIndex, def: DefinitionView, q: FtsQuery, doc: Seq<char>) -> bool {
    score(index, def, q, doc).len() > 0
}

proof fn lemma_holds_is_posted(index: InvertedIndex, field: Seq<char>, term: Seq<char>, doc: Seq<char>)
    ensures
        posted(index@.fields, field, term, doc) <==> index.fields@.contains_key(field) && holds(
            index.fields@[field],
            term,
            doc,
        ),
{
}

proof fn lemma_no_parts(f: FieldIndex, total: usize, test: TestView, doc: Seq<char>, k: int)
    requires
        forall|term: Seq<char>| !#[trigger] holds(f, term, doc),
    ensures
        term_parts(f, total, test, doc, k).len() == 0,
    decreases k,
{
    if k > 0 {
        lemma_no_parts(f, total, test, doc, k - 1);
        assert(!holds(f, f.postings.keys@[k - 1]@, doc));
    }
}

proof fn lemma_some_parts(
    f: FieldIndex,
    total: usize,
    test: TestView,
    doc: Seq<char>,
    place: int,
    k: int,
)
    requires
        0 <= place < k <= f.postings.keys@.len(),
        test.accepts(f.postings.keys@[place]@),
        holds(f, f.postings.keys@[place]@, doc),
    ensures
        term_parts(f, total, test, doc, k).len() > 0,
    decreases k,
{
    if place < k - 1 {
        lemma_some_parts(f, total, test, doc, place, k - 1);
    }
}

proof fn lemma_parts_mean_term(f: FieldIndex, total: usize, test: TestView, doc: Seq<char>, k: int)
    requires
        k <= f.postings.keys@.len(),
        term_parts(f, total, test, doc, k).len() > 0,
    ensures
        exists|term: Seq<char>| #[trigger] test.accepts(term) && holds(f, term, doc),
    decreases k,
{
    if k > 0 {
        let term = f.postings.keys@[k - 1]@;
        if test.accepts(term) && holds(f, term, doc) {
        } else {
            lemma_parts_mean_term(f, total, test, doc, k - 1);
        }
    }
}

/// A search of a field for terms finds a document if and only if the document holds one of them.
pub proof fn law_terms_are_found(
    index: InvertedIndex,
    field: Seq<char>,
    test: TestView,
    doc: Seq<char>,
)
    requires
        index.wf(),
    ensures
        field_parts(index, field, test, doc).len() > 0 <==> exists|term: Seq<char>|
            test.accepts(term) && #[trigger] posted(index@.fields, field, term, doc),
{
    if index.fields@.contains_key(field) {
        let f = index.fields@[field];
        let n = f.postings.keys@.len() as int;
        let p = index.fields.place(field);
        assert(index.fields.at(field, p));
        assert(index.fields.vals@[p].wf());
        if field_parts(index, field, test, doc).len() > 0 {
            lemma_parts_mean_term(f, index.total_docs, test, doc, n);
            let term = choose|term: Seq<char>| #[trigger]
                test.accepts(term) && holds(f, term, doc);
            lemma_holds_is_posted(index, field, term, doc);
        }
        if exists|term: Seq<char>|
            test.accepts(term) && #[trigger] posted(index@.fields, field, term, doc) {
            let term = choose|term: Seq<char>|
                test.accepts(term) && #[trigger] posted(index@.fields, field, term, doc);
            lemma_holds_is_posted(index, field, term, doc);
            let place = f.postings.place(term);
            assert(f.postings.at(term, place));
            lemma_some_parts(f, index.total_docs, test, doc, place, n);
        }
    }
}

/// Whether a document is nowhere in an index.
pub open spec fn absent(v: IndexView, doc: Seq<char>) -> bool {
    &&& !v.stored.contains_key(doc)
    &&& forall|field: Seq<char>, term: Seq<char>| !#[trigger] posted(v.fields, field, term, doc)
}

proof fn lemma_field_absent(index: InvertedIndex, field: Seq<char>, test: TestView, doc: Seq<char>)
    requires
        absent(index@, doc),
    ensures
        field_parts(index, field, test, doc).len() == 0,
{
    if index.fields@.contains_key(field) {
        let f = index.fields@[field];
        assert forall|term: Seq<char>| !#[trigger] holds(f, term, doc) by {
            lemma_holds_is_posted(index, field, term, doc);
            assert(!posted(index@.fields, field, term, doc));
        }
        lemma_no_parts(f, index.total_docs, test, doc, f.postings.keys@.len() as int);
    }
}

proof fn lemma_words_absent(
    index: InvertedIndex,
    field: Seq<char>,
    words: Seq<TokenView>,
    fuzziness: usize,
    doc: Seq<char>,
    k: int,
)
    requires
        absent(index@, doc),
    ensures
        any_word(index, field, words, fuzziness, doc, k).len() == 0,
        every_word(index, field, words, fuzziness, doc, k).len() == 0,
    decreases k,
{
    if k > 0 {
        lemma_words_absent(index, field, words, fuzziness, doc, k - 1);
        lemma_field_absent(index, field, word_test(words[k - 1].text, fuzziness), doc);
    }
}

proof fn lemma_leaf_absent(
    index: InvertedIndex,
    def: DefinitionView,
    q: FtsQuery,
    name: Seq<char>,
    doc: Seq<char>,
)
    requires
        absent(index@, doc),
    ensures
        leaf_score(index, def, q, name, doc).len() == 0,
{
    match q {
        FtsQuery::Match { field, query, fuzziness, operator } => {
            let words = tokens_of(query@, def.analyzer_of(name));
            lemma_words_absent(index, name, words, fuzziness, doc, words.len() as int);
        },
        FtsQuery::MatchPhrase { field, query } => {
            let words = tokens_of(query@, def.analyzer_of(name));
            if phrase_score(index, name, words, doc).len() > 0 {
                assert(holds(index.fields@[name], words[0].text, doc));
                lemma_holds_is_posted(index, name, words[0].text, doc);
            }
        },
        FtsQuery::Term { field, term } => {
            lemma_field_absent(index, name, TestView::Exact(term@), doc);
        },
        FtsQuery::Prefix { field, prefix } => {
            lemma_field_absent(
                index,
                name,
                TestView::Starting(crate::unicode::lowercase_of(prefix@)),
                doc,
            );
        },
        FtsQuery::Wildcard { field, wildcard } => {
            lemma_field_absent(
                index,
                name,
                TestView::Wild(crate::unicode::lowercase_of(wildcard@)),
                doc,
            );
        },
        FtsQuery::Regexp { field, regexp } => {
            lemma_field_absent(index, name, TestView::Regular(regexp@), doc);
        },
        _ => {},
    }
}

proof fn lemma_all_fields_absent(
    index: InvertedIndex,
    def: DefinitionView,
    q: FtsQuery,
    doc: Seq<char>,
    k: int,
)
    requires
        absent(index@, doc),
    ensures
        all_fields(index, def, q, doc, k).len() == 0,
    decreases k,
{
    if k > 0 {
        lemma_all_fields_absent(index, def, q, doc, k - 1);
        lemma_leaf_absent(index, def, q, index.fields.keys@[k - 1]@, doc);
    }
}

proof fn lemma_list_absent(
    index: InvertedIndex,
    def: DefinitionView,
    list: Vec<FtsQuery>,
    doc: Seq<char>,
    k: nat,
)
    requires
        absent(index@, doc),
    ensures
        score_any(index, def, list, doc, k).len() == 0,
        score_all(index, def, list, doc, k).len() == 0,
    decreases list, k,
{
    if 0 < k <= list@.len() {
        lemma_list_absent(index, def, list, doc, (k - 1) as nat);
        law_absent_documents_are_not_found(index, def, list@[k - 1], doc);
    }
}

/// No query finds a document that is nowhere in the index.
pub proof fn law_absent_documents_are_not_found(
    index: InvertedIndex,
    def: DefinitionView,
    q: FtsQuery,
    doc: Seq<char>,
)
    requires
        absent(index@, doc),
    ensures
        !finds(index, def, q, doc),
    decreases q, 0nat,
{
    match field_of(q) {
        Some(name) => {
            lemma_all_fields_absent(index, def, q, doc, index.fields.keys@.len() as int);
            lemma_leaf_absent(index, def, q, name, doc);
        },
        None => match q {
            FtsQuery::Bool { must, should, must_not } => {
                lemma_list_absent(index, def, must, doc, must@.len());
                lemma_list_absent(index, def, should, doc, should@.len());
            },
            _ => {},
        },
    }
}

/// A search finds documents of the index only.
pub proof fn law_only_documents_are_found(
    index: InvertedIndex,
    def: DefinitionView,
    q: FtsQuery,
    doc: Seq<char>,
)
    requires
        keeps_to_documents(index@),
        finds(index, def, q, doc),
    ensures
        index@.stored.contains_key(doc),
{
    if !index@.stored.contains_key(doc) {
        assert(absent(index@, doc));
        law_absent_documents_are_not_found(index, def, q, doc);
    }
}

proof fn lemma_tokens_posted(f: FieldView, doc: Seq<char>, tokens: Seq<TokenView>, k: int)
    requires
        k <= tokens.len(),
    ensures
        forall|i: int|
            0 <= i < k ==> f.with_tokens(doc, tokens, k).postings.contains_key(
                (#[trigger] tokens[i]).text,
            ) && f.with_tokens(doc, tokens, k).postings[tokens[i].text].contains_key(doc),
        forall|t: Seq<char>, d: Seq<char>|
            f.postings.contains_key(t) && #[trigger] f.postings[t].contains_key(d)
                ==> f.with_tokens(doc, tokens, k).postings.contains_key(t) && f.with_tokens(
                doc,
                tokens,
                k,
            ).postings[t].contains_key(d),
        forall|t: Seq<char>, d: Seq<char>|
            f.with_tokens(doc, tokens, k).postings.contains_key(t) && #[trigger] f.with_tokens(
                doc,
                tokens,
                k,
            ).postings[t].contains_key(d) ==> d == doc || (f.postings.contains_key(t)
                && f.postings[t].contains_key(d)),
    decreases k,
{
    if k > 0 {
        lemma_tokens_posted(f, doc, tokens, k - 1);
        let g = f.with_tokens(doc, tokens, k - 1);
        let h = f.with_tokens(doc, tokens, k);
        assert(h == g.posted(doc, tokens[k - 1].text, tokens[k - 1].position as u32));
        assert forall|i: int| 0 <= i < k implies h.postings.contains_key(
            (#[trigger] tokens[i]).text,
        ) && h.postings[tokens[i].text].contains_key(doc) by {
            if i < k - 1 {
                assert(g.postings[tokens[i].text].contains_key(doc));
            }
        }
        assert forall|t: Seq<char>, d: Seq<char>|
            f.postings.contains_key(t) && #[trigger] f.postings[t].contains_key(d) implies
            h.postings.contains_key(t) && h.postings[t].contains_key(d) by {
            assert(g.postings[t].contains_key(d));
        }
        assert forall|t: Seq<char>, d: Seq<char>|
            h.postings.contains_key(t) && #[trigger] h.postings[t].contains_key(d) implies d == doc
            || (f.postings.contains_key(t) && f.postings[t].contains_key(d)) by {
            if d != doc {
                assert(g.postings[t].contains_key(d));
            }
        }
    }
}

/// What a document adds: its own postings, and nothing is lost.
proof fn lemma_fields_posted(
    start: Filling,
    def: DefinitionView,
    mappings: Seq<MappingView>,
    value: Json,
    doc: Seq<char>,
    k: int,
)
    requires
        k <= mappings.len(),
    ensures
        forall|f: Seq<char>, t: Seq<char>, d: Seq<char>| #[trigger]
            posted(start.fields, f, t, d) ==> posted(
                start.with_fields(def, mappings, value, doc, k).fields,
                f,
                t,
                d,
            ),
        forall|f: Seq<char>, t: Seq<char>, d: Seq<char>| #[trigger]
            posted(start.with_fields(def, mappings, value, doc, k).fields, f, t, d) ==> d == doc
                || posted(start.fields, f, t, d),
        forall|i: int, j: int|
            #![trigger mappings[i], tokens_of(content_at(value, mappings[i].field)->Words_0, def.analyzer_of(mappings[i].field))[j]]
            0 <= i < k && content_at(value, mappings[i].field) is Words && content_at(
                value,
                mappings[i].field,
            )->Words_0.len() > 0 && 0 <= j < tokens_of(
                content_at(value, mappings[i].field)->Words_0,
                def.analyzer_of(mappings[i].field),
            ).len() ==> posted(
                start.with_fields(def, mappings, value, doc, k).fields,
                mappings[i].field,
                tokens_of(
                    content_at(value, mappings[i].field)->Words_0,
                    def.analyzer_of(mappings[i].field),
                )[j].text,
                doc,
            ),
    decreases k,
{
    if k > 0 {
        lemma_fields_posted(start, def, mappings, value, doc, k - 1);
        let m = mappings[k - 1];
        let g = start.with_fields(def, mappings, value, doc, k - 1);
        let h = start.with_fields(def, mappings, value, doc, k);
        let content = content_at(value, m.field);
        match content {
            FieldContent::Words(text) => {
                if text.len() > 0 {
                    let tokens = tokens_of(text, def.analyzer_of(m.field));
                    let before = field_or_fresh(g.fields, m.field);
                    lemma_tokens_posted(before, doc, tokens, tokens.len() as int);
                    let after = before.with_tokens(doc, tokens, tokens.len() as int);
                    assert(h.fields[m.field].postings == after.postings);
                    assert forall|f: Seq<char>, t: Seq<char>, d: Seq<char>| #[trigger]
                        posted(start.fields, f, t, d) implies posted(h.fields, f, t, d) by {
                        assert(posted(g.fields, f, t, d));
                        if f == m.field {
                            assert(before.postings[t].contains_key(d));
                        }
                    }
                    assert forall|f: Seq<char>, t: Seq<char>, d: Seq<char>| #[trigger]
                        posted(h.fields, f, t, d) implies d == doc || posted(
                        start.fields,
                        f,
                        t,
                        d,
                    ) by {
                        if d != doc {
                            if f == m.field {
                                assert(after.postings[t].contains_key(d));
                                assert(before.postings[t].contains_key(d));
                            }
                            assert(posted(g.fields, f, t, d));
                        }
                    }
                    assert forall|i: int, j: int|
                        #![trigger mappings[i], tokens_of(content_at(value, mappings[i].field)->Words_0, def.analyzer_of(mappings[i].field))[j]]
                        0 <= i < k && content_at(value, mappings[i].field) is Words && content_at(
                            value,
                            mappings[i].field,
                        )->Words_0.len() > 0 && 0 <= j < tokens_of(
                            content_at(value, mappings[i].field)->Words_0,
                            def.analyzer_of(mappings[i].field),
                        ).len() implies posted(
                        h.fields,
                        mappings[i].field,
                        tokens_of(
                            content_at(value, mappings[i].field)->Words_0,
                            def.analyzer_of(mappings[i].field),
                        )[j].text,
                        doc,
                    ) by {
                        let word = tokens_of(
                            content_at(value, mappings[i].field)->Words_0,
                            def.analyzer_of(mappings[i].field),
                        )[j].text;
                        if i == k - 1 {
                            assert(tokens[j].text == word);
                            assert(after.postings[word].contains_key(doc));
                        } else {
                            assert(posted(g.fields, mappings[i].field, word, doc));
                            if mappings[i].field == m.field {
                                assert(before.postings[word].contains_key(doc));
                            }
                        }
                    }
                } else {
                    assert(h == g);
                }
            },
            _ => {
                assert(h.fields == g.fields);
            },
        }
    }
}

/// Taking in a document keeps the index to its own documents.
pub proof fn law_indexing_keeps_to_documents(v: IndexView, def: DefinitionView, doc: Seq<char>, value: Json)
    requires
        keeps_to_documents(v),
    ensures
        keeps_to_documents(v.with_document(def, doc, value)),
{
    let mappings = mappings_for(def, value);
    let start = Filling { fields: v.fields, stored: Map::empty() };
    lemma_fields_posted(start, def, mappings, value, doc, mappings.len() as int);
    let after = v.with_document(def, doc, value);
    assert forall|f: Seq<char>, t: Seq<char>, d: Seq<char>| #[trigger]
        posted(after.fields, f, t, d) implies after.stored.contains_key(d) by {
        if d != doc {
            assert(posted(v.fields, f, t, d));
        }
    }
}

/// Taking out a document keeps the index to its own documents, and the document is nowhere in it.
pub proof fn law_removed_documents_are_absent(v: IndexView, doc: Seq<char>)
    ensures
        absent(v.without(doc), doc),
        keeps_to_documents(v) ==> keeps_to_documents(v.without(doc)),
{
    let after = v.without(doc);
    assert forall|f: Seq<char>, t: Seq<char>, d: Seq<char>| #[trigger]
        posted(after.fields, f, t, d) implies d != doc && posted(v.fields, f, t, d) by {
    }
}

/// An index of no documents keeps to its documents.
pub proof fn law_fresh_index_keeps_to_documents()
    ensures
        keeps_to_documents(IndexView::fresh()),
{
}

/// The index over any documents keeps to them.
pub proof fn law_built_index_keeps_to_documents(def: DefinitionView, docs: Seq<FtsDocument>, k: int)
    ensures
        keeps_to_documents(built(def, docs, k)),
        keeps_to_documents(built(def, docs, k).settled()),
    decreases k,
{
    if k <= 0 {
        law_fresh_index_keeps_to_documents();
    } else {
        law_built_index_keeps_to_documents(def, docs, k - 1);
        if !docs[k - 1].deleted {
            law_indexing_keeps_to_documents(
                built(def, docs, k - 1),
                def,
                docs[k - 1].key@,
                docs[k - 1].value,
            );
        }
    }
}

/// An index that follows a bucket keeps to its documents when one is written or deleted, and no
/// query finds a deleted one.
pub proof fn law_following_keeps_to_documents(
    x: FtsIndexView,
    bucket: Seq<char>,
    doc: Seq<char>,
    value: Json,
)
    requires
        keeps_to_documents(x.data),
    ensures
        keeps_to_documents(after_upsert(x, bucket, doc, value)),
        keeps_to_documents(after_delete(x, bucket, doc)),
        follows_bucket(x.definition, bucket) ==> absent(after_delete(x, bucket, doc), doc),
        follows_bucket(x.definition, bucket) ==> after_upsert(
            x,
            bucket,
            doc,
            value,
        ).stored.contains_key(doc),
{
    law_removed_documents_are_absent(x.data, doc);
    let cleared = x.data.without(doc);
    law_indexing_keeps_to_documents(cleared, x.definition, doc, value);
    let filled = cleared.with_document(x.definition, doc, value);
    assert(keeps_to_documents(filled.settled())) by {
        assert(filled.settled().fields == filled.fields);
    }
    assert(keeps_to_documents(cleared.settled())) by {
        assert(cleared.settled().fields == cleared.fields);
    }
    if follows_bucket(x.definition, bucket) {
        assert(absent(cleared.settled(), doc)) by {
            assert(cleared.settled().fields == cleared.fields);
        }
    }
}

/// A document is found by each word that it was indexed under.
pub proof fn law_indexed_words_are_found(
    index: InvertedIndex,
    prior: IndexView,
    def: DefinitionView,
    doc: Seq<char>,
    value: Json,
    i: int,
    text: Seq<char>,
    word: int,
    q: FtsQuery,
)
    requires
        index.wf(),
        index@.fields == prior.with_document(def, doc, value).fields,
        0 <= i < mappings_for(def, value).len(),
        content_at(value, mappings_for(def, value)[i].field) == FieldContent::Words(text),
        text.len() > 0,
        0 <= word < tokens_of(text, def.analyzer_of(mappings_for(def, value)[i].field)).len(),
        q is Term,
        q->Term_field@ == mappings_for(def, value)[i].field,
        q->Term_field@ != "_all"@,
        q->term@ == tokens_of(text, def.analyzer_of(mappings_for(def, value)[i].field))[word].text,
    ensures
        finds(index, def, q, doc),
{
    let mappings = mappings_for(def, value);
    let start = Filling { fields: prior.fields, stored: Map::empty() };
    lemma_fields_posted(start, def, mappings, value, doc, mappings.len() as int);
    let field = mappings[i].field;
    let w = tokens_of(content_at(value, mappings[i].field)->Words_0, def.analyzer_of(mappings[i].field))[word];
    assert(posted(index@.fields, field, w.text, doc));
    law_terms_are_found(index, field, TestView::Exact(w.text), doc);
    assert(TestView::Exact(w.text).accepts(w.text));
}

proof fn lemma_any_finds(
    index: InvertedIndex,
    def: DefinitionView,
    list: Vec<FtsQuery>,
    doc: Seq<char>,
    k: nat,
)
    requires
        k <= list@.len(),
    ensures
        score_any(index, def, list, doc, k).len() > 0 <==> exists|i: int|
            0 <= i < k && finds(index, def, #[trigger] list@[i], doc),
    decreases k,
{
    if k > 0 {
        lemma_any_finds(index, def, list, doc, (k - 1) as nat);
        if finds(index, def, list@[k - 1], doc) {
            assert(score_any(index, def, list, doc, k).len() > 0);
        }
    }
}

proof fn lemma_all_find(
    index: InvertedIndex,
    def: DefinitionView,
    list: Vec<FtsQuery>,
    doc: Seq<char>,
    k: nat,
)
    requires
        0 < k <= list@.len(),
    ensures
        score_all(index, def, list, doc, k).len() > 0 <==> forall|i: int|
            0 <= i < k ==> finds(index, def, #[trigger] list@[i], doc),
    decreases k,
{
    if k > 1 {
        lemma_all_find(index, def, list, doc, (k - 1) as nat);
        assert(finds(index, def, list@[k - 1], doc) == (score(
            index,
            def,
            list@[k - 1],
            doc,
        ).len() > 0));
    } else {
        assert(score_all(index, def, list, doc, 1) == score(index, def, list@[0], doc));
    }
}

/// A boolean query finds what all of `must` find, or without those any of `should`, and what none
/// of `must_not` finds.
pub proof fn law_boolean_queries(
    index: InvertedIndex,
    def: DefinitionView,
    q: FtsQuery,
    doc: Seq<char>,
)
    requires
        q is Bool,
    ensures
        finds(index, def, q, doc) <==> ({
            &&& if q->must@.len() > 0 {
                forall|i: int|
                    0 <= i < q->must@.len() ==> finds(index, def, #[trigger] q->must@[i], doc)
            } else {
                exists|i: int|
                    0 <= i < q->should@.len() && finds(index, def, #[trigger] q->should@[i], doc)
            }
            &&& forall|i: int|
                0 <= i < q->must_not@.len() ==> !finds(index, def, #[trigger] q->must_not@[i], doc)
        }),
{
    let must = q->must;
    let should = q->should;
    let must_not = q->must_not;
    lemma_any_finds(index, def, should, doc, should@.len());
    lemma_any_finds(index, def, must_not, doc, must_not@.len());
    if must@.len() > 0 {
        lemma_all_find(index, def, must, doc, must@.len());
    }
}

/// Everything in the index is found by the query for all, and nothing by the query for none.
pub proof fn law_all_and_none(index: InvertedIndex, def: DefinitionView, doc: Seq<char>)
    ensures
        finds(index, def, FtsQuery::MatchAll, doc) <==> index@.stored.contains_key(doc),
        !finds(index, def, FtsQuery::MatchNone, doc),
{
}

proof fn lemma_every_word_holds(
    index: InvertedIndex,
    field: Seq<char>,
    words: Seq<TokenView>,
    fuzziness: usize,
    doc: Seq<char>,
    k: int,
)
    requires
        0 < k <= words.len(),
    ensures
        every_word(index, field, words, fuzziness, doc, k).len() > 0 <==> forall|i: int|
            0 <= i < k ==> field_parts(
                index,
                field,
                word_test((#[trigger] words[i]).text, fuzziness),
                doc,
            ).len() > 0,
        every_word(index, field, words, fuzziness, doc, k).len() > 0 ==> any_word(
            index,
            field,
            words,
            fuzziness,
            doc,
            k,
        ).len() > 0,
    decreases k,
{
    if k > 1 {
        lemma_every_word_holds(index, field, words, fuzziness, doc, k - 1);
        assert(field_parts(index, field, word_test(words[k - 1].text, fuzziness), doc).len() > 0
            <==> field_parts(
            index,
            field,
            word_test((words[k - 1]).text, fuzziness),
            doc,
        ).len() > 0);
    } else {
        assert(every_word(index, field, words, fuzziness, doc, 1) == field_parts(
            index,
            field,
            word_test(words[0].text, fuzziness),
            doc,
        ));
        assert(any_word(index, field, words, fuzziness, doc, 0).len() == 0);
    }
}

/// What is found by all words of a text is found by any of them.
pub proof fn law_all_words_include_any(
    index: InvertedIndex,
    field: Seq<char>,
    words: Seq<TokenView>,
    fuzziness: usize,
    doc: Seq<char>,
)
    requires
        every_word(index, field, words, fuzziness, doc, words.len() as int).len() > 0,
    ensures
        any_word(index, field, words, fuzziness, doc, words.len() as int).len() > 0,
{
    if words.len() > 0 {
        lemma_every_word_holds(index, field, words, fuzziness, doc, words.len() as int);
    }
}

/// A document that holds a phrase is found by all of its words.
pub proof fn law_phrases_hold_their_words(
    index: InvertedIndex,
    field: Seq<char>,
    words: Seq<TokenView>,
    doc: Seq<char>,
)
    requires
        index.wf(),
        phrase_score(index, field, words, doc).len() > 0,
    ensures
        every_word(index, field, words, 0, doc, words.len() as int).len() > 0,
{
    assert forall|i: int| 0 <= i < words.len() implies field_parts(
        index,
        field,
        word_test((#[trigger] words[i]).text, 0),
        doc,
    ).len() > 0 by {
        let w = words[i].text;
        assert(holds(index.fields@[field], w, doc));
        lemma_holds_is_posted(index, field, w, doc);
        law_terms_are_found(index, field, TestView::Exact(w), doc);
        assert(TestView::Exact(w).accepts(w));
    }
    lemma_every_word_holds(index, field, words, 0, doc, words.len() as int);
}

} // verus!
