//! Queries, and how they are run against an index.

use crate::fts::analyzer::{token_views, tokenize, tokens_of, Token, TokenView};
use crate::fts::definition::{DefinitionView, FtsIndexDefinition};
use crate::fts::index::FieldIndex;
use crate::fts::inverted::{stored_view, InvertedIndex};
use crate::fts::matching::{
    distance, levenshtein_distance, matches_pattern, regex_matches, simple_regex_match,
    wildcard_match,
};
use crate::fts::scores::{combined, Combine, ScorePart, Scores, TermStat};
use crate::text::{contains_text, opt_is, opt_str, opt_text, same_text, texts};
use crate::text_split::{has_prefix, starts_with};
use crate::unicode::{lowercase, lowercase_of};
use vstd::prelude::*;
use vstd::string::*;

verus! {

/// What is searched for. The field `_all` stands for every indexed field.
#[derive(Debug)]
pub enum FtsQuery {
    /// The words of a text: all of them if the operator is `and`, else any of them.
    Match { field: String, query: String, fuzziness: usize, operator: Option<String> },
    /// The words of a text, one after the other.
    MatchPhrase { field: String, query: String },
    /// A term as it stands.
    Term { field: String, term: String },
    /// The terms that begin with a text.
    Prefix { field: String, prefix: String },
    /// The terms that match a pattern with `*` and `?`.
    Wildcard { field: String, wildcard: String },
    /// The terms that match a simple regular expression: `.` is any character, and `*` repeats the
    /// character before it.
    Regexp { field: String, regexp: String },
    /// The stored texts of a field that are numbers in the range.
    NumericRange { field: String, inside: Vec<String> },
    /// What all of `must` find, or without those any of `should`, and none of `must_not`.
    Bool { must: Vec<FtsQuery>, should: Vec<FtsQuery>, must_not: Vec<FtsQuery> },
    /// Every document.
    MatchAll,
    /// No document.
    MatchNone,
}

/// Which terms a query looks for.
pub enum TermTest {
    /// This one.
    Exact(String),
    /// Those within an edit distance.
    Near(String, usize),
    /// Those that begin so.
    Starting(String),
    /// Those that match a wildcard pattern.
    Wild(String),
    /// Those that match a regular expression.
    Regular(String),
}

/// What a [`TermTest`] stands for.
pub enum TestView {
    Exact(Seq<char>),
    Near(Seq<char>, usize),
    Starting(Seq<char>),
    Wild(Seq<char>),
    Regular(Seq<char>),
}

impl TestView {
    /// Whether a term passes.
    pub open spec fn accepts(self, term: Seq<char>) -> bool {
        match self {
            TestView::Exact(t) => term == t,
            TestView::Near(t, limit) => distance(t, term) <= limit,
            TestView::Starting(t) => starts_with(term, t),
            TestView::Wild(t) => matches_pattern(t, term),
            TestView::Regular(t) => regex_matches(t, term),
        }
    }
}

impl View for TermTest {
    type V = TestView;

    open spec fn view(&self) -> TestView {
        match *self {
            TermTest::Exact(t) => TestView::Exact(t@),
            TermTest::Near(t, limit) => TestView::Near(t@, limit),
            TermTest::Starting(t) => TestView::Starting(t@),
            TermTest::Wild(t) => TestView::Wild(t@),
            TermTest::Regular(t) => TestView::Regular(t@),
        }
    }
}

impl TermTest {
    fn accepts(&self, term: &str) -> (r: bool)
        ensures
            r == self@.accepts(term@),
    {
        match self {
            TermTest::Exact(t) => same_text(term, t.as_str()),
            TermTest::Near(t, limit) => levenshtein_distance(t.as_str(), term) <= *limit,
            TermTest::Starting(t) => has_prefix(term, t.as_str()),
            TermTest::Wild(t) => wildcard_match(t.as_str(), term),
            TermTest::Regular(t) => simple_regex_match(t.as_str(), term),
        }
    }
}

/// The counts of a term in a document.
pub open spec fn stat_of(f: FieldIndex, total_docs: usize, term: Seq<char>, doc: Seq<char>) -> TermStat {
    TermStat {
        tf: f.postings@[term]@[doc]@.len() as usize,
        df: f.postings@[term].keys@.len() as usize,
        doc_len: if f.lengths@.contains_key(doc) {
            Some(f.lengths@[doc])
        } else {
            None
        },
        average: f.average,
        total_docs,
    }
}

/// Whether a document holds a term.
pub open spec fn holds(f: FieldIndex, term: Seq<char>, doc: Seq<char>) -> bool {
    f.postings@.contains_key(term) && f.postings@[term]@.contains_key(doc)
}

/// The score of a document from those of the first `k` terms that pass a test.
pub open spec fn term_parts(
    f: FieldIndex,
    total_docs: usize,
    test: TestView,
    doc: Seq<char>,
    k: int,
) -> Seq<ScorePart>
    decreases k,
{
    if k <= 0 {
        Seq::empty()
    } else {
        let rest = term_parts(f, total_docs, test, doc, k - 1);
        let term = f.postings.keys@[k - 1]@;
        if test.accepts(term) && holds(f, term, doc) {
            rest.push(ScorePart::Term(stat_of(f, total_docs, term, doc)))
        } else {
            rest
        }
    }
}

/// The score of a document from the terms of a field that pass a test.
pub open spec fn field_parts(
    index: InvertedIndex,
    field: Seq<char>,
    test: TestView,
    doc: Seq<char>,
) -> Seq<ScorePart> {
    if index.fields@.contains_key(field) {
        let f = index.fields@[field];
        term_parts(f, index.total_docs, test, doc, f.postings.keys@.len() as int)
    } else {
        Seq::empty()
    }
}

/// The terms that a word of a query stands for.
pub open spec fn word_test(word: Seq<char>, fuzziness: usize) -> TestView {
    if fuzziness > 0 {
        TestView::Near(word, fuzziness)
    } else {
        TestView::Exact(word)
    }
}

/// The score of a document from any of the first `k` words.
pub open spec fn any_word(
    index: InvertedIndex,
    field: Seq<char>,
    words: Seq<TokenView>,
    fuzziness: usize,
    doc: Seq<char>,
    k: int,
) -> Seq<ScorePart>
    decreases k,
{
    if k <= 0 {
        Seq::empty()
    } else {
        any_word(index, field, words, fuzziness, doc, k - 1) + field_parts(
            index,
            field,
            word_test(words[k - 1].text, fuzziness),
            doc,
        )
    }
}

/// The score of a document that has all of the first `k` words.
pub open spec fn every_word(
    index: InvertedIndex,
    field: Seq<char>,
    words: Seq<TokenView>,
    fuzziness: usize,
    doc: Seq<char>,
    k: int,
) -> Seq<ScorePart>
    decreases k,
{
    if k <= 0 {
        Seq::empty()
    } else {
        let last = field_parts(index, field, word_test(words[k - 1].text, fuzziness), doc);
        if k == 1 {
            last
        } else {
            combined(
                Combine::Both,
                every_word(index, field, words, fuzziness, doc, k - 1),
                last,
            )
        }
    }
}

/// Whether a position is among those of a term.
pub open spec fn stands_at(positions: Seq<u32>, place: int) -> bool {
    exists|i: int| 0 <= i < positions.len() && #[trigger] positions[i] as int == place
}

/// Whether the words from the second on stand one after the other behind a place.
pub open spec fn follows(f: FieldIndex, words: Seq<TokenView>, doc: Seq<char>, start: int) -> bool {
    forall|i: int|
        1 <= i < words.len() ==> stands_at(
            f.postings@[(#[trigger] words[i]).text]@[doc]@,
            start + i,
        )
}

/// Whether a document holds all words.
pub open spec fn holds_all(f: FieldIndex, words: Seq<TokenView>, doc: Seq<char>) -> bool {
    forall|i: int| 0 <= i < words.len() ==> holds(f, (#[trigger] words[i]).text, doc)
}

/// Whether a document holds the words one after the other.
pub open spec fn phrase_found(f: FieldIndex, words: Seq<TokenView>, doc: Seq<char>) -> bool {
    &&& words.len() > 0
    &&& holds_all(f, words, doc)
    &&& exists|s: int|
        0 <= s < f.postings@[words[0].text]@[doc]@.len() && follows(
            f,
            words,
            doc,
            #[trigger] f.postings@[words[0].text]@[doc]@[s] as int,
        )
}

/// The score of a phrase from its first `k` words.
pub open spec fn phrase_parts(
    f: FieldIndex,
    total_docs: usize,
    words: Seq<TokenView>,
    doc: Seq<char>,
    k: int,
) -> Seq<ScorePart>
    decreases k,
{
    if k <= 0 {
        Seq::empty()
    } else {
        phrase_parts(f, total_docs, words, doc, k - 1).push(
            ScorePart::PhraseTerm(stat_of(f, total_docs, words[k - 1].text, doc)),
        )
    }
}

/// The score of a document from a phrase in a field.
pub open spec fn phrase_score(
    index: InvertedIndex,
    field: Seq<char>,
    words: Seq<TokenView>,
    doc: Seq<char>,
) -> Seq<ScorePart> {
    if index.fields@.contains_key(field) && phrase_found(index.fields@[field], words, doc) {
        phrase_parts(index.fields@[field], index.total_docs, words, doc, words.len() as int)
    } else {
        Seq::empty()
    }
}

/// The field that a query names.
pub open spec fn field_of(q: FtsQuery) -> Option<Seq<char>> {
    match q {
        FtsQuery::Match { field, query, fuzziness, operator } => Some(field@),
        FtsQuery::MatchPhrase { field, query } => Some(field@),
        FtsQuery::Term { field, term } => Some(field@),
        FtsQuery::Prefix { field, prefix } => Some(field@),
        FtsQuery::Wildcard { field, wildcard } => Some(field@),
        FtsQuery::Regexp { field, regexp } => Some(field@),
        FtsQuery::NumericRange { field, inside } => Some(field@),
        _ => None,
    }
}

/// The score of a document from a query about one field, asked of the field of that name.
pub open spec fn leaf_score(
    index: InvertedIndex,
    def: DefinitionView,
    q: FtsQuery,
    name: Seq<char>,
    doc: Seq<char>,
) -> Seq<ScorePart> {
    match q {
        FtsQuery::Match { field, query, fuzziness, operator } => {
            let words = tokens_of(query@, def.analyzer_of(name));
            let n = words.len() as int;
            if opt_text(operator) == Some("and"@) {
                every_word(index, name, words, fuzziness, doc, n)
            } else {
                any_word(index, name, words, fuzziness, doc, n)
            }
        },
        FtsQuery::MatchPhrase { field, query } => phrase_score(
            index,
            name,
            tokens_of(query@, def.analyzer_of(name)),
            doc,
        ),
        FtsQuery::Term { field, term } => field_parts(index, name, TestView::Exact(term@), doc),
        FtsQuery::Prefix { field, prefix } => field_parts(
            index,
            name,
            TestView::Starting(lowercase_of(prefix@)),
            doc,
        ),
        FtsQuery::Wildcard { field, wildcard } => field_parts(
            index,
            name,
            TestView::Wild(lowercase_of(wildcard@)),
            doc,
        ),
        FtsQuery::Regexp { field, regexp } => field_parts(
            index,
            name,
            TestView::Regular(regexp@),
            doc,
        ),
        FtsQuery::NumericRange { field, inside } => if index@.stored.contains_key(doc)
            && index@.stored[doc].contains_key(name) && texts(inside@).contains(
            index@.stored[doc][name],
        ) {
            seq![ScorePart::One]
        } else {
            Seq::empty()
        },
        _ => Seq::empty(),
    }
}

/// The score of a document from a query about one field, asked of the first `k` fields.
pub open spec fn all_fields(
    index: InvertedIndex,
    def: DefinitionView,
    q: FtsQuery,
    doc: Seq<char>,
    k: int,
) -> Seq<ScorePart>
    decreases k,
{
    if k <= 0 {
        Seq::empty()
    } else {
        all_fields(index, def, q, doc, k - 1) + leaf_score(
            index,
            def,
            q,
            index.fields.keys@[k - 1]@,
            doc,
        )
    }
}

/// What the score of a document is made of; a document of which it is made of nothing is not
/// found.
pub open spec fn score(index: InvertedIndex, def: DefinitionView, q: FtsQuery, doc: Seq<char>) -> Seq<
    ScorePart,
>
    decreases q, 0nat,
{
    match field_of(q) {
        Some(name) => if name == "_all"@ {
            all_fields(index, def, q, doc, index.fields.keys@.len() as int)
        } else {
            leaf_score(index, def, q, name, doc)
        },
        None => match q {
            FtsQuery::Bool { must, should, must_not } => {
                let wanted = score_any(index, def, should, doc, should@.len());
                let base = if must@.len() == 0 {
                    wanted
                } else {
                    combined(
                        Combine::Boost,
                        score_all(index, def, must, doc, must@.len()),
                        wanted,
                    )
                };
                combined(
                    Combine::Without,
                    base,
                    score_any(index, def, must_not, doc, must_not@.len()),
                )
            },
            FtsQuery::MatchAll => if index.stored@.contains_key(doc) {
                seq![ScorePart::One]
            } else {
                Seq::empty()
            },
            _ => Seq::empty(),
        },
    }
}

/// The score of a document from any of the first `k` queries.
pub open spec fn score_any(
    index: InvertedIndex,
    def: DefinitionView,
    list: Vec<FtsQuery>,
    doc: Seq<char>,
    k: nat,
) -> Seq<ScorePart>
    decreases list, k,
{
    if k == 0 || k > list@.len() {
        Seq::empty()
    } else {
        score_any(index, def, list, doc, (k - 1) as nat) + score(index, def, list@[k - 1], doc)
    }
}

/// The score of a document that all of the first `k` queries find.
pub open spec fn score_all(
    index: InvertedIndex,
    def: DefinitionView,
    list: Vec<FtsQuery>,
    doc: Seq<char>,
    k: nat,
) -> Seq<ScorePart>
    decreases list, k,
{
    if k == 0 || k > list@.len() {
        Seq::empty()
    } else {
        let last = score(index, def, list@[k - 1], doc);
        if k == 1 {
            last
        } else {
            combined(
                Combine::Both,
                score_all(index, def, list, doc, (k - 1) as nat),
                last,
            )
        }
    }
}

/// Whether the texts of a query can be tokenized: positions are counted in 32 bits.
pub open spec fn query_fits(q: FtsQuery) -> bool
    decreases q,
{
    match q {
        FtsQuery::Match { field, query, fuzziness, operator } => query@.len() <= u32::MAX,
        FtsQuery::MatchPhrase { field, query } => query@.len() <= u32::MAX,
        FtsQuery::Bool { must, should, must_not } => {
            &&& forall|i: int| 0 <= i < must@.len() ==> query_fits(#[trigger] must@[i])
            &&& forall|i: int| 0 <= i < should@.len() ==> query_fits(#[trigger] should@[i])
            &&& forall|i: int| 0 <= i < must_not@.len() ==> query_fits(#[trigger] must_not@[i])
        },
        _ => true,
    }
}

fn term_stat(f: &FieldIndex, total_docs: usize, place: usize, at: usize) -> (r: TermStat)
    requires
        f.wf(),
        place < f.postings.keys@.len(),
        at < f.postings.vals@[place as int].keys@.len(),
    ensures
        r == stat_of(
            *f,
            total_docs,
            f.postings.keys@[place as int]@,
            f.postings.vals@[place as int].keys@[at as int]@,
        ),
{
    let docs = &f.postings.vals[place];
    proof {
        f.postings.lemma_place(place as int);
        docs.lemma_place(at as int);
    }
    let doc_len = match f.lengths.get(docs.keys[at].as_str()) {
        Some(n) => Some(*n),
        None => None,
    };
    TermStat {
        tf: docs.vals[at].len(),
        df: docs.keys.len(),
        doc_len,
        average: f.average,
        total_docs,
    }
}

/// Adds to the scores what the documents of one term get for it.
fn score_docs(f: &FieldIndex, total_docs: usize, place: usize, scores: &mut Scores)
    requires
        f.wf(),
        place < f.postings.keys@.len(),
        old(scores).wf(),
    ensures
        final(scores).wf(),
        forall|d: Seq<char>| #[trigger]
            final(scores).of(d) == if holds(*f, f.postings.keys@[place as int]@, d) {
                old(scores).of(d).push(
                    ScorePart::Term(stat_of(*f, total_docs, f.postings.keys@[place as int]@, d)),
                )
            } else {
                old(scores).of(d)
            },
{
    let ghost before = *scores;
    let ghost term = f.postings.keys@[place as int]@;
    let docs = &f.postings.vals[place];
    proof {
        f.postings.lemma_place(place as int);
    }
    let n: usize = docs.keys.len();
    let mut j: usize = 0;
    while j < n
        invariant
            j <= n,
            n == docs.keys@.len(),
            f.wf(),
            docs.wf(),
            place < f.postings.keys@.len(),
            term == f.postings.keys@[place as int]@,
            *docs == f.postings.vals@[place as int],
            f.postings@.contains_key(term),
            f.postings@[term] == *docs,
            scores.wf(),
            forall|d: Seq<char>, i: int|
                #![trigger scores.of(d), docs.at(d, i)]
                i < j && docs.at(d, i) ==> scores.of(d) == before.of(d).push(
                    ScorePart::Term(stat_of(*f, total_docs, term, d)),
                ),
            forall|d: Seq<char>|
                (forall|i: int| #[trigger] docs.at(d, i) ==> i >= j) ==> #[trigger] scores.of(d)
                    == before.of(d),
        decreases n - j,
    {
        let ghost mid = *scores;
        let ghost doc = docs.keys@[j as int]@;
        proof {
            docs.lemma_place(j as int);
            assert forall|i: int| #[trigger] docs.at(doc, i) implies i == j by {
                docs.lemma_place(i);
            }
            assert(mid.of(doc) == before.of(doc));
        }
        let stat = term_stat(f, total_docs, place, j);
        scores.push_part(docs.keys[j].as_str(), ScorePart::Term(stat));
        proof {
            assert forall|d: Seq<char>, i: int|
                #![trigger scores.of(d), docs.at(d, i)]
                i < j + 1 && docs.at(d, i) implies scores.of(d) == before.of(d).push(
                ScorePart::Term(stat_of(*f, total_docs, term, d)),
            ) by {
                if d != doc {
                    assert(mid.of(d) == before.of(d).push(
                        ScorePart::Term(stat_of(*f, total_docs, term, d)),
                    ));
                }
            }
            assert forall|d: Seq<char>|
                (forall|i: int| #[trigger] docs.at(d, i) ==> i >= j + 1) implies
                #[trigger] scores.of(d) == before.of(d) by {
                assert(docs.at(doc, j as int));
                assert(d != doc);
                assert(mid.of(d) == before.of(d));
            }
        }
        j = j + 1;
    }
    proof {
        assert forall|d: Seq<char>| #[trigger] scores.of(d) == if holds(*f, term, d) {
            before.of(d).push(ScorePart::Term(stat_of(*f, total_docs, term, d)))
        } else {
            before.of(d)
        } by {
            if docs@.contains_key(d) {
                let i = docs.place(d);
                assert(docs.at(d, i));
            } else {
                assert forall|i: int| #[trigger] docs.at(d, i) implies i >= n by {
                    docs.lemma_place(i);
                }
            }
        }
    }
}

/// What the documents get for the terms of a field that pass a test.
fn score_terms(index: &InvertedIndex, field: &str, test: &TermTest) -> (r: Scores)
    requires
        index.wf(),
    ensures
        r.wf(),
        forall|d: Seq<char>| #[trigger] r.of(d) == field_parts(*index, field@, test@, d),
{
    let mut scores = Scores::new();
    match index.fields.find(field) {
        Some(at) => {
            let f = &index.fields.vals[at];
            let mut k: usize = 0;
            while k < f.postings.keys.len()
                invariant
                    k <= f.postings.keys@.len(),
                    f.wf(),
                    scores.wf(),
                    forall|d: Seq<char>| #[trigger]
                        scores.of(d) == term_parts(*f, index.total_docs, test@, d, k as int),
                decreases f.postings.keys@.len() - k,
            {
                if test.accepts(f.postings.keys[k].as_str()) {
                    score_docs(f, index.total_docs, k, &mut scores);
                }
                k = k + 1;
            }
        },
        None => {},
    }
    scores
}

/// What the documents get for a single term.
pub fn score_term(index: &InvertedIndex, field: &str, term: &str) -> (r: Scores)
    requires
        index.wf(),
    ensures
        r.wf(),
        forall|d: Seq<char>| #[trigger]
            r.of(d) == field_parts(*index, field@, TestView::Exact(term@), d),
{
    score_terms(index, field, &TermTest::Exact(term.to_owned()))
}

fn contains_position(positions: &Vec<u32>, place: u64) -> (r: bool)
    ensures
        r == stands_at(positions@, place as int),
{
    let mut i: usize = 0;
    while i < positions.len()
        invariant
            i <= positions@.len(),
            forall|k: int| 0 <= k < i ==> #[trigger] positions@[k] as int != place,
        decreases positions@.len() - i,
    {
        if positions[i] as u64 == place {
            assert(positions@[i as int] as int == place);
            return true;
        }
        i = i + 1;
    }
    false
}

/// Where a document holds a term, if it does.
fn positions_of<'a>(f: &'a FieldIndex, term: &str, doc: &str) -> (r: Option<&'a Vec<u32>>)
    requires
        f.wf(),
    ensures
        match r {
            Some(p) => holds(*f, term@, doc@) && *p == f.postings@[term@]@[doc@],
            None => !holds(*f, term@, doc@),
        },
{
    match f.postings.find(term) {
        Some(i) => {
            assert(f.postings.vals@[i as int].wf());
            f.postings.vals[i].get(doc)
        },
        None => None,
    }
}

/// Whether the words from the second on stand one after the other behind a place.
fn words_follow(f: &FieldIndex, doc: &str, tokens: &Vec<Token>, start: u32) -> (r: bool)
    requires
        f.wf(),
        tokens@.len() <= u32::MAX,
        holds_all(*f, token_views(tokens@), doc@),
    ensures
        r == follows(*f, token_views(tokens@), doc@, start as int),
{
    let ghost words = token_views(tokens@);
    let mut i: usize = 1;
    while i < tokens.len()
        invariant
            1 <= i,
            f.wf(),
            words == token_views(tokens@),
            tokens@.len() <= u32::MAX,
            holds_all(*f, words, doc@),
            forall|k: int|
                1 <= k < i && k < words.len() ==> stands_at(
                    f.postings@[(#[trigger] words[k]).text]@[doc@]@,
                    start + k,
                ),
        decreases tokens@.len() - i,
    {
        assert(words[i as int] == tokens@[i as int]@);
        match positions_of(f, tokens[i].text.as_str(), doc) {
            Some(p) => {
                if !contains_position(p, start as u64 + i as u64) {
                    return false;
                }
            },
            None => {
                assert(holds(*f, words[i as int].text, doc@));
                return false;
            },
        }
        i = i + 1;
    }
    true
}

/// Whether a document holds the words one after the other.
pub fn check_phrase_match(f: &FieldIndex, doc: &str, tokens: &Vec<Token>) -> (r: bool)
    requires
        f.wf(),
        tokens@.len() <= u32::MAX,
    ensures
        r == phrase_found(*f, token_views(tokens@), doc@),
{
    let ghost words = token_views(tokens@);
    if tokens.len() == 0 {
        return false;
    }
    let mut i: usize = 0;
    while i < tokens.len()
        invariant
            i <= tokens@.len(),
            f.wf(),
            words == token_views(tokens@),
            forall|k: int| 0 <= k < i ==> holds(*f, (#[trigger] words[k]).text, doc@),
        decreases tokens@.len() - i,
    {
        assert(words[i as int] == tokens@[i as int]@);
        if positions_of(f, tokens[i].text.as_str(), doc).is_none() {
            assert(!holds(*f, words[i as int].text, doc@));
            return false;
        }
        i = i + 1;
    }
    assert(holds_all(*f, words, doc@));
    assert(words[0] == tokens@[0]@);
    match positions_of(f, tokens[0].text.as_str(), doc) {
        Some(p) => {
            let mut s: usize = 0;
            while s < p.len()
                invariant
                    s <= p@.len(),
                    f.wf(),
                    words == token_views(tokens@),
                    tokens@.len() <= u32::MAX,
                    holds_all(*f, words, doc@),
                    words.len() > 0,
                    p@ == f.postings@[words[0].text]@[doc@]@,
                    forall|k: int|
                        0 <= k < s ==> !follows(*f, words, doc@, #[trigger] p@[k] as int),
                decreases p@.len() - s,
            {
                if words_follow(f, doc, tokens, p[s]) {
                    assert(follows(*f, words, doc@, p@[s as int] as int));
                    return true;
                }
                s = s + 1;
            }
            false
        },
        None => false,
    }
}

/// Adds to the scores what a document gets for a phrase.
fn score_phrase_doc(
    f: &FieldIndex,
    total_docs: usize,
    tokens: &Vec<Token>,
    doc: &str,
    scores: &mut Scores,
)
    requires
        f.wf(),
        old(scores).wf(),
        holds_all(*f, token_views(tokens@), doc@),
    ensures
        final(scores).wf(),
        forall|d: Seq<char>| #[trigger]
            final(scores).of(d) == if d == doc@ {
                old(scores).of(d) + phrase_parts(
                    *f,
                    total_docs,
                    token_views(tokens@),
                    d,
                    tokens@.len() as int,
                )
            } else {
                old(scores).of(d)
            },
{
    let ghost before = *scores;
    let ghost words = token_views(tokens@);
    let mut k: usize = 0;
    assert(before.of(doc@) + phrase_parts(*f, total_docs, words, doc@, 0) =~= before.of(doc@));
    while k < tokens.len()
        invariant
            k <= tokens@.len(),
            words == token_views(tokens@),
            f.wf(),
            holds_all(*f, words, doc@),
            scores.wf(),
            scores.of(doc@) == before.of(doc@) + phrase_parts(
                *f,
                total_docs,
                words,
                doc@,
                k as int,
            ),
            forall|d: Seq<char>| d != doc@ ==> #[trigger] scores.of(d) == before.of(d),
        decreases tokens@.len() - k,
    {
        let ghost mid = scores.of(doc@);
        assert(words[k as int] == tokens@[k as int]@);
        assert(holds(*f, words[k as int].text, doc@));
        match f.postings.find(tokens[k].text.as_str()) {
            Some(place) => {
                assert(f.postings.vals@[place as int].wf());
                match f.postings.vals[place].find(doc) {
                    Some(at) => {
                        let stat = term_stat(f, total_docs, place, at);
                        scores.push_part(doc, ScorePart::PhraseTerm(stat));
                    },
                    None => {},
                }
            },
            None => {},
        }
        k = k + 1;
        assert(scores.of(doc@) =~= before.of(doc@) + phrase_parts(
            *f,
            total_docs,
            words,
            doc@,
            k as int,
        ));
    }
}

/// What the documents get for a phrase in a field.
fn score_phrase(index: &InvertedIndex, field: &str, tokens: &Vec<Token>) -> (r: Scores)
    requires
        index.wf(),
        tokens@.len() <= u32::MAX,
    ensures
        r.wf(),
        forall|d: Seq<char>| #[trigger]
            r.of(d) == phrase_score(*index, field@, token_views(tokens@), d),
{
    let ghost words = token_views(tokens@);
    let mut scores = Scores::new();
    if tokens.len() == 0 {
        return scores;
    }
    assert(words[0] == tokens@[0]@);
    match index.fields.find(field) {
        Some(at) => {
            let f = &index.fields.vals[at];
            match f.postings.find(tokens[0].text.as_str()) {
                Some(first) => {
                    let docs = &f.postings.vals[first];
                    let n: usize = docs.keys.len();
                    let mut j: usize = 0;
                    while j < n
                        invariant
                            j <= n,
                            n == docs.keys@.len(),
                            f.wf(),
                            docs.wf(),
                            words == token_views(tokens@),
                            tokens@.len() <= u32::MAX,
                            scores.wf(),
                            forall|d: Seq<char>, i: int|
                                #![trigger scores.of(d), docs.at(d, i)]
                                i < j && docs.at(d, i) ==> scores.of(d) == if phrase_found(
                                    *f,
                                    words,
                                    d,
                                ) {
                                    phrase_parts(
                                        *f,
                                        index.total_docs,
                                        words,
                                        d,
                                        words.len() as int,
                                    )
                                } else {
                                    Seq::empty()
                                },
                            forall|d: Seq<char>|
                                (forall|i: int| #[trigger] docs.at(d, i) ==> i >= j) ==>
                                #[trigger] scores.of(d) == Seq::<ScorePart>::empty(),
                        decreases n - j,
                    {
                        let ghost mid = scores;
                        let ghost doc = docs.keys@[j as int]@;
                        proof {
                            docs.lemma_place(j as int);
                            assert forall|i: int| #[trigger] docs.at(doc, i) implies i == j by {
                                docs.lemma_place(i);
                            }
                            assert(mid.of(doc) == Seq::<ScorePart>::empty());
                        }
                        if check_phrase_match(f, docs.keys[j].as_str(), tokens) {
                            score_phrase_doc(
                                f,
                                index.total_docs,
                                tokens,
                                docs.keys[j].as_str(),
                                &mut scores,
                            );
                            assert(scores.of(doc) =~= phrase_parts(
                                *f,
                                index.total_docs,
                                words,
                                doc,
                                words.len() as int,
                            ));
                        }
                        proof {
                            assert forall|d: Seq<char>, i: int|
                                #![trigger scores.of(d), docs.at(d, i)]
                                i < j + 1 && docs.at(d, i) implies scores.of(d) == if phrase_found(
                                *f,
                                words,
                                d,
                            ) {
                                phrase_parts(*f, index.total_docs, words, d, words.len() as int)
                            } else {
                                Seq::empty()
                            } by {
                                if d != doc {
                                    assert(scores.of(d) == mid.of(d));
                                }
                            }
                            assert forall|d: Seq<char>|
                                (forall|i: int| #[trigger] docs.at(d, i) ==> i >= j + 1) implies
                                #[trigger] scores.of(d) == Seq::<ScorePart>::empty() by {
                                assert(docs.at(doc, j as int));
                                assert(d != doc);
                                assert(mid.of(d) == Seq::<ScorePart>::empty());
                            }
                        }
                        j = j + 1;
                    }
                    proof {
                        assert forall|d: Seq<char>| #[trigger] scores.of(d) == phrase_score(
                            *index,
                            field@,
                            words,
                            d,
                        ) by {
                            if docs@.contains_key(d) {
                                let i = docs.place(d);
                                assert(docs.at(d, i));
                            } else {
                                assert forall|i: int| #[trigger] docs.at(d, i) implies i >= n by {
                                    docs.lemma_place(i);
                                }
                                assert(!holds(*f, words[0].text, d));
                            }
                        }
                    }
                },
                None => {
                    assert forall|d: Seq<char>| #[trigger] scores.of(d) == phrase_score(
                        *index,
                        field@,
                        words,
                        d,
                    ) by {
                        assert(!holds(*f, words[0].text, d));
                    }
                },
            }
        },
        None => {},
    }
    scores
}

/// What the documents get for the words of a text.
fn score_words(
    index: &InvertedIndex,
    field: &str,
    tokens: &Vec<Token>,
    fuzziness: usize,
    every: bool,
) -> (r: Scores)
    requires
        index.wf(),
    ensures
        r.wf(),
        forall|d: Seq<char>| #[trigger]
            r.of(d) == if every {
                every_word(
                    *index,
                    field@,
                    token_views(tokens@),
                    fuzziness,
                    d,
                    tokens@.len() as int,
                )
            } else {
                any_word(
                    *index,
                    field@,
                    token_views(tokens@),
                    fuzziness,
                    d,
                    tokens@.len() as int,
                )
            },
{
    let ghost words = token_views(tokens@);
    let mut scores = Scores::new();
    let mut k: usize = 0;
    while k < tokens.len()
        invariant
            k <= tokens@.len(),
            words == token_views(tokens@),
            index.wf(),
            scores.wf(),
            forall|d: Seq<char>| #[trigger]
                scores.of(d) == if every {
                    every_word(*index, field@, words, fuzziness, d, k as int)
                } else {
                    any_word(*index, field@, words, fuzziness, d, k as int)
                },
        decreases tokens@.len() - k,
    {
        assert(words[k as int] == tokens@[k as int]@);
        let text = tokens[k].text.clone();
        let test = if fuzziness > 0 {
            TermTest::Near(text, fuzziness)
        } else {
            TermTest::Exact(text)
        };
        let found = score_terms(index, field, &test);
        if !every {
            scores.join(&found);
        } else if k == 0 {
            scores = found;
        } else {
            scores = scores.combine(Combine::Both, &found);
        }
        k = k + 1;
    }
    scores
}

/// The documents whose stored text in a field is one of those given.
fn score_stored(index: &InvertedIndex, field: &str, inside: &Vec<String>) -> (r: Scores)
    requires
        index.wf(),
    ensures
        r.wf(),
        forall|d: Seq<char>| #[trigger]
            r.of(d) == if index@.stored.contains_key(d) && index@.stored[d].contains_key(field@)
                && texts(inside@).contains(index@.stored[d][field@]) {
                seq![ScorePart::One]
            } else {
                Seq::empty()
            },
{
    let mut scores = Scores::new();
    let stored = &index.stored;
    let n: usize = stored.keys.len();
    let mut j: usize = 0;
    let ghost wanted = |d: Seq<char>|
        if index@.stored.contains_key(d) && index@.stored[d].contains_key(field@) && texts(
            inside@,
        ).contains(index@.stored[d][field@]) {
            seq![ScorePart::One]
        } else {
            Seq::empty()
        };
    while j < n
        invariant
            j <= n,
            n == stored.keys@.len(),
            *stored == index.stored,
            index.wf(),
            scores.wf(),
            forall|d: Seq<char>| #[trigger]
                wanted(d) == if index@.stored.contains_key(d) && index@.stored[d].contains_key(
                    field@,
                ) && texts(inside@).contains(index@.stored[d][field@]) {
                    seq![ScorePart::One]
                } else {
                    Seq::empty()
                },
            forall|d: Seq<char>, i: int|
                #![trigger scores.of(d), stored.at(d, i)]
                i < j && stored.at(d, i) ==> scores.of(d) == wanted(d),
            forall|d: Seq<char>|
                (forall|i: int| #[trigger] stored.at(d, i) ==> i >= j) ==> #[trigger] scores.of(d)
                    == Seq::<ScorePart>::empty(),
        decreases n - j,
    {
        let ghost mid = scores;
        let ghost doc = stored.keys@[j as int]@;
        proof {
            stored.lemma_place(j as int);
            assert forall|i: int| #[trigger] stored.at(doc, i) implies i == j by {
                stored.lemma_place(i);
            }
            assert(mid.of(doc) == Seq::<ScorePart>::empty());
            assert(stored.vals@[j as int].wf());
            assert(index@.stored[doc] == stored_view(stored.vals@[j as int]));
        }
        match stored.vals[j].get(field) {
            Some(text) => {
                if contains_text(inside, text.as_str()) {
                    scores.push_part(stored.keys[j].as_str(), ScorePart::One);
                    assert(scores.of(doc) =~= seq![ScorePart::One]);
                }
            },
            None => {},
        }
        proof {
            assert(scores.of(doc) == wanted(doc));
            assert forall|d: Seq<char>, i: int|
                #![trigger scores.of(d), stored.at(d, i)]
                i < j + 1 && stored.at(d, i) implies scores.of(d) == wanted(d) by {
                if d != doc {
                    assert(scores.of(d) == mid.of(d));
                }
            }
            assert forall|d: Seq<char>|
                (forall|i: int| #[trigger] stored.at(d, i) ==> i >= j + 1) implies
                #[trigger] scores.of(d) == Seq::<ScorePart>::empty() by {
                assert(stored.at(doc, j as int));
                assert(d != doc);
                assert(mid.of(d) == Seq::<ScorePart>::empty());
            }
        }
        j = j + 1;
    }
    proof {
        assert forall|d: Seq<char>| #[trigger] scores.of(d) == wanted(d) by {
            if stored@.contains_key(d) {
                let i = stored.place(d);
                assert(stored.at(d, i));
            } else {
                assert forall|i: int| #[trigger] stored.at(d, i) implies i >= n by {
                    stored.lemma_place(i);
                }
            }
        }
    }
    scores
}

/// Every document.
fn score_all_docs(index: &InvertedIndex) -> (r: Scores)
    requires
        index.wf(),
    ensures
        r.wf(),
        forall|d: Seq<char>| #[trigger]
            r.of(d) == if index.stored@.contains_key(d) {
                seq![ScorePart::One]
            } else {
                Seq::empty()
            },
{
    let mut scores = Scores::new();
    let stored = &index.stored;
    let n: usize = stored.keys.len();
    let mut j: usize = 0;
    while j < n
        invariant
            j <= n,
            n == stored.keys@.len(),
            *stored == index.stored,
            index.wf(),
            scores.wf(),
            forall|d: Seq<char>, i: int|
                #![trigger scores.of(d), stored.at(d, i)]
                i < j && stored.at(d, i) ==> scores.of(d) == seq![ScorePart::One],
            forall|d: Seq<char>|
                (forall|i: int| #[trigger] stored.at(d, i) ==> i >= j) ==> #[trigger] scores.of(d)
                    == Seq::<ScorePart>::empty(),
        decreases n - j,
    {
        let ghost mid = scores;
        let ghost doc = stored.keys@[j as int]@;
        proof {
            stored.lemma_place(j as int);
            assert forall|i: int| #[trigger] stored.at(doc, i) implies i == j by {
                stored.lemma_place(i);
            }
            assert(mid.of(doc) == Seq::<ScorePart>::empty());
        }
        scores.push_part(stored.keys[j].as_str(), ScorePart::One);
        proof {
            assert(scores.of(doc) =~= seq![ScorePart::One]);
            assert forall|d: Seq<char>, i: int|
                #![trigger scores.of(d), stored.at(d, i)]
                i < j + 1 && stored.at(d, i) implies scores.of(d) == seq![ScorePart::One] by {
                if d != doc {
                    assert(scores.of(d) == mid.of(d));
                }
            }
            assert forall|d: Seq<char>|
                (forall|i: int| #[trigger] stored.at(d, i) ==> i >= j + 1) implies
                #[trigger] scores.of(d) == Seq::<ScorePart>::empty() by {
                assert(stored.at(doc, j as int));
                assert(d != doc);
                assert(mid.of(d) == Seq::<ScorePart>::empty());
            }
        }
        j = j + 1;
    }
    proof {
        assert forall|d: Seq<char>| #[trigger] scores.of(d) == if stored@.contains_key(d) {
            seq![ScorePart::One]
        } else {
            Seq::empty()
        } by {
            if stored@.contains_key(d) {
                let i = stored.place(d);
                assert(stored.at(d, i));
            } else {
                assert forall|i: int| #[trigger] stored.at(d, i) implies i >= n by {
                    stored.lemma_place(i);
                }
            }
        }
    }
    scores
}

/// The field that a query names.
pub fn get_query_field(q: &FtsQuery) -> (r: Option<&str>)
    ensures
        opt_str(r) == field_of(*q),
{
    match q {
        FtsQuery::Match { field, .. } => Some(field.as_str()),
        FtsQuery::MatchPhrase { field, .. } => Some(field.as_str()),
        FtsQuery::Term { field, .. } => Some(field.as_str()),
        FtsQuery::Prefix { field, .. } => Some(field.as_str()),
        FtsQuery::Wildcard { field, .. } => Some(field.as_str()),
        FtsQuery::Regexp { field, .. } => Some(field.as_str()),
        FtsQuery::NumericRange { field, .. } => Some(field.as_str()),
        _ => None,
    }
}

/// Runs a query about one field against the field of that name.
fn execute_leaf(index: &InvertedIndex, def: &FtsIndexDefinition, q: &FtsQuery, name: &str) -> (r:
    Scores)
    requires
        index.wf(),
        query_fits(*q),
    ensures
        r.wf(),
        forall|d: Seq<char>| #[trigger] r.of(d) == leaf_score(*index, def@, *q, name@, d),
{
    match q {
        FtsQuery::Match { field, query, fuzziness, operator } => {
            let analyzer = def.get_field_analyzer(name);
            let tokens = tokenize(query.as_str(), &analyzer);
            assert(token_views(tokens@).len() == tokens@.len());
            let every = opt_is(operator, "and");
            score_words(index, name, &tokens, *fuzziness, every)
        },
        FtsQuery::MatchPhrase { field, query } => {
            let analyzer = def.get_field_analyzer(name);
            let tokens = tokenize(query.as_str(), &analyzer);
            score_phrase(index, name, &tokens)
        },
        FtsQuery::Term { field, term } => score_term(index, name, term.as_str()),
        FtsQuery::Prefix { field, prefix } => score_terms(
            index,
            name,
            &TermTest::Starting(lowercase(prefix.as_str())),
        ),
        FtsQuery::Wildcard { field, wildcard } => score_terms(
            index,
            name,
            &TermTest::Wild(lowercase(wildcard.as_str())),
        ),
        FtsQuery::Regexp { field, regexp } => score_terms(
            index,
            name,
            &TermTest::Regular(regexp.clone()),
        ),
        FtsQuery::NumericRange { field, inside } => score_stored(index, name, inside),
        _ => Scores::new(),
    }
}

/// Runs a query about one field against every field.
fn execute_on_all_fields(index: &InvertedIndex, def: &FtsIndexDefinition, q: &FtsQuery) -> (r:
    Scores)
    requires
        index.wf(),
        query_fits(*q),
    ensures
        r.wf(),
        forall|d: Seq<char>| #[trigger]
            r.of(d) == all_fields(*index, def@, *q, d, index.fields.keys@.len() as int),
{
    let mut scores = Scores::new();
    let mut k: usize = 0;
    while k < index.fields.keys.len()
        invariant
            k <= index.fields.keys@.len(),
            index.wf(),
            query_fits(*q),
            scores.wf(),
            forall|d: Seq<char>| #[trigger]
                scores.of(d) == all_fields(*index, def@, *q, d, k as int),
        decreases index.fields.keys@.len() - k,
    {
        let found = execute_leaf(index, def, q, index.fields.keys[k].as_str());
        scores.join(&found);
        k = k + 1;
    }
    scores
}

/// Runs a query.
pub fn execute_query(index: &InvertedIndex, def: &FtsIndexDefinition, q: &FtsQuery) -> (r: Scores)
    requires
        index.wf(),
        query_fits(*q),
    ensures
        r.wf(),
        forall|d: Seq<char>| #[trigger] r.of(d) == score(*index, def@, *q, d),
    decreases *q, 0nat,
{
    match get_query_field(q) {
        Some(name) => {
            if same_text(name, "_all") {
                execute_on_all_fields(index, def, q)
            } else {
                execute_leaf(index, def, q, name)
            }
        },
        None => match q {
            FtsQuery::Bool { must, should, must_not } => {
                let wanted = union_scores(index, def, should);
                let base = if must.len() == 0 {
                    wanted
                } else {
                    let needed = intersect_scores(index, def, must);
                    needed.combine(Combine::Boost, &wanted)
                };
                let unwanted = union_scores(index, def, must_not);
                base.combine(Combine::Without, &unwanted)
            },
            FtsQuery::MatchAll => score_all_docs(index),
            _ => Scores::new(),
        },
    }
}

/// What any of the queries finds.
fn union_scores(index: &InvertedIndex, def: &FtsIndexDefinition, list: &Vec<FtsQuery>) -> (r: Scores)
    requires
        index.wf(),
        forall|i: int| 0 <= i < list@.len() ==> query_fits(#[trigger] list@[i]),
    ensures
        r.wf(),
        forall|d: Seq<char>| #[trigger] r.of(d) == score_any(*index, def@, *list, d, list@.len()),
    decreases *list, 0nat,
{
    let mut scores = Scores::new();
    let mut k: usize = 0;
    while k < list.len()
        invariant
            k <= list@.len(),
            index.wf(),
            forall|i: int| 0 <= i < list@.len() ==> query_fits(#[trigger] list@[i]),
            scores.wf(),
            forall|d: Seq<char>| #[trigger]
                scores.of(d) == score_any(*index, def@, *list, d, k as nat),
        decreases list@.len() - k,
    {
        assert(decreases_to!(*list => list@[k as int]));
        let found = execute_query(index, def, &list[k]);
        scores.join(&found);
        k = k + 1;
    }
    scores
}

/// What all of the queries find.
fn intersect_scores(index: &InvertedIndex, def: &FtsIndexDefinition, list: &Vec<FtsQuery>) -> (r:
    Scores)
    requires
        index.wf(),
        forall|i: int| 0 <= i < list@.len() ==> query_fits(#[trigger] list@[i]),
    ensures
        r.wf(),
        forall|d: Seq<char>| #[trigger] r.of(d) == score_all(*index, def@, *list, d, list@.len()),
    decreases *list, 0nat,
{
    let mut scores = Scores::new();
    let mut k: usize = 0;
    while k < list.len()
        invariant
            k <= list@.len(),
            index.wf(),
            forall|i: int| 0 <= i < list@.len() ==> query_fits(#[trigger] list@[i]),
            scores.wf(),
            forall|d: Seq<char>| #[trigger]
                scores.of(d) == score_all(*index, def@, *list, d, k as nat),
        decreases list@.len() - k,
    {
        assert(decreases_to!(*list => list@[k as int]));
        let found = execute_query(index, def, &list[k]);
        if k == 0 {
            scores = found;
        } else {
            scores = scores.combine(Combine::Both, &found);
        }
        k = k + 1;
    }
    scores
}

} // verus!
