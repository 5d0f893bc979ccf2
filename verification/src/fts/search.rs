//! Searching an index: what is found, in which order, and what is shown of it.

use crate::fts::definition::{DefinitionView, FtsIndexState};
use crate::fts::engine::{not_found, not_found_text, FtsEngine, FtsIndex, FtsIndexView};
use crate::fts::highlight::{field_fragments, generate_highlights, query_terms};
use crate::fts::inverted::{stored_view, InvertedIndex};
use crate::fts::ranking::{candidates, is_ranking, rank};
use crate::fts::query::{execute_query, query_fits, score, FtsQuery};
use crate::fts::scores::Scores;
use crate::strmap::StrMap;
use crate::text::texts;
use vstd::prelude::*;
use vstd::string::*;

verus! {

/// A search.
pub struct FtsSearchRequest {
    pub index: String,
    pub query: FtsQuery,
    /// How many results are returned at most.
    pub size: usize,
    /// How many results are skipped.
    pub from: usize,
    /// Whether fragments with marked words are returned.
    pub highlight: bool,
    /// The stored fields to return; if there are none, all.
    pub fields: Vec<String>,
    /// By what the results are ordered: `_score`, or the name of a stored field; a hyphen in front
    /// turns the order round. If there is nothing, the heaviest come first.
    pub sort: Vec<String>,
}

/// How many results are returned where nothing is said.
pub fn default_size() -> (r: usize)
    ensures
        r == 10,
{
    10
}

/// One result of a search.
pub struct FtsHit {
    pub index: String,
    pub id: String,
    /// How well the document fits the query.
    pub weight: u64,
    pub fields: StrMap<String>,
    pub fragments: Option<StrMap<Vec<String>>>,
}

/// A page of results.
pub struct FtsPage {
    pub total_hits: usize,
    /// The greatest weight of all results, if there is one.
    pub max_weight: Option<u64>,
    pub hits: Vec<FtsHit>,
}

/// Why an index cannot be searched.
pub open spec fn search_error(
    indexes: Map<Seq<char>, FtsIndexView>,
    name: Seq<char>,
) -> Option<Seq<char>> {
    if !indexes.contains_key(name) {
        Some(not_found(name))
    } else if indexes[name].definition.state != FtsIndexState::Online {
        Some(
            "FTS index '"@ + name + "' is not online (state: "@
                + indexes[name].definition.state.name() + ")"@,
        )
    } else {
        None
    }
}

/// Whether a weight is the greatest of all; there is none where there are no weights.
pub open spec fn is_greatest(max: Option<u64>, weights: Seq<u64>) -> bool {
    match max {
        None => weights.len() == 0,
        Some(m) => weights.contains(m) && forall|i: int|
            0 <= i < weights.len() ==> #[trigger] weights[i] <= m,
    }
}

/// The greatest weight.
fn greatest(weights: &Vec<u64>) -> (r: Option<u64>)
    ensures
        is_greatest(r, weights@),
{
    if weights.len() == 0 {
        return None;
    }
    let mut max: u64 = weights[0];
    let mut i: usize = 1;
    while i < weights.len()
        invariant
            1 <= i <= weights@.len(),
            weights@.contains(max),
            forall|k: int| 0 <= k < i ==> #[trigger] weights@[k] <= max,
        decreases weights@.len() - i,
    {
        if weights[i] > max {
            max = weights[i];
        }
        i = i + 1;
    }
    Some(max)
}

/// Where a page begins.
pub open spec fn page_start(n: int, from: usize) -> int {
    if from < n {
        from as int
    } else {
        n
    }
}

/// Where a page ends.
pub open spec fn page_end(n: int, from: usize, size: usize) -> int {
    if size < n - page_start(n, from) {
        page_start(n, from) + size
    } else {
        n
    }
}

/// The stored texts of a document that a search shows.
pub open spec fn shown(
    stored: Map<Seq<char>, Map<Seq<char>, Seq<char>>>,
    doc: Seq<char>,
    fields: Seq<Seq<char>>,
) -> Map<Seq<char>, Seq<char>> {
    if !stored.contains_key(doc) {
        Map::empty()
    } else if fields.len() == 0 {
        stored[doc]
    } else {
        Map::new(
            |f: Seq<char>| fields.contains(f) && stored[doc].contains_key(f),
            |f: Seq<char>| stored[doc][f],
        )
    }
}

/// The stored texts of a document that a search shows.
fn shown_fields(data: &InvertedIndex, doc: &str, fields: &Vec<String>) -> (r: StrMap<String>)
    requires
        data.wf(),
    ensures
        r.wf(),
        stored_view(r) == shown(data@.stored, doc@, texts(fields@)),
{
    let mut out: StrMap<String> = StrMap::new();
    match data.stored.find(doc) {
        None => {
            assert(stored_view(out) =~= shown(data@.stored, doc@, texts(fields@)));
        },
        Some(at) => {
            let stored = &data.stored.vals[at];
            let ghost held = stored_view(*stored);
            assert(data@.stored[doc@] == held);
            assert(texts(fields@).len() == fields@.len());
            if fields.len() == 0 {
                let n: usize = stored.keys.len();
                let mut k: usize = 0;
                while k < n
                    invariant
                        k <= n,
                        n == stored.keys@.len(),
                        stored.wf(),
                        out.wf(),
                        held == stored_view(*stored),
                        forall|f: Seq<char>| #[trigger]
                            out@.contains_key(f) ==> stored@.contains_key(f) && out@[f]@ == held[f],
                        forall|j: int| 0 <= j < k ==> out@.contains_key(#[trigger] stored.keys@[j]@),
                    decreases n - k,
                {
                    proof {
                        stored.lemma_place(k as int);
                    }
                    out.insert(stored.keys[k].clone(), stored.vals[k].clone());
                    k = k + 1;
                }
                assert(stored_view(out) =~= held) by {
                    assert forall|f: Seq<char>| stored@.contains_key(f) implies out@.contains_key(
                        f,
                    ) by {
                        let j = stored.place(f);
                        assert(stored.at(f, j));
                        assert(stored.keys@[j]@ == f);
                    }
                }
            } else {
                let ghost wanted = texts(fields@);
                let mut k: usize = 0;
                while k < fields.len()
                    invariant
                        k <= fields@.len(),
                        stored.wf(),
                        out.wf(),
                        held == stored_view(*stored),
                        wanted == texts(fields@),
                        forall|f: Seq<char>| #[trigger]
                            out@.contains_key(f) ==> held.contains_key(f) && out@[f]@ == held[f]
                                && wanted.contains(f),
                        forall|j: int|
                            0 <= j < k && held.contains_key(wanted[j]) ==> out@.contains_key(
                                #[trigger] wanted[j],
                            ),
                    decreases fields@.len() - k,
                {
                    assert(wanted[k as int] == fields@[k as int]@);
                    match stored.get(fields[k].as_str()) {
                        Some(text) => {
                            out.insert(fields[k].clone(), text.clone());
                        },
                        None => {},
                    }
                    k = k + 1;
                }
                assert(stored_view(out) =~= shown(data@.stored, doc@, wanted));
            }
        },
    }
    out
}

/// Whether a result shows what it should.
pub open spec fn hit_shows(
    hit: FtsHit,
    data: InvertedIndex,
    def: DefinitionView,
    request: FtsSearchRequest,
    doc: Seq<char>,
    weight: u64,
) -> bool {
    &&& hit.index@ == request.index@
    &&& hit.id@ == doc
    &&& hit.weight == weight
    &&& hit.fields.wf()
    &&& stored_view(hit.fields) == shown(data@.stored, doc, texts(request.fields@))
    &&& match hit.fragments {
        None => !request.highlight,
        Some(list) => request.highlight && list.wf() && forall|field: Seq<char>|
            {
                let pieces = field_fragments(
                    query_terms(def, request.query),
                    field,
                    data@.stored[doc][field],
                );
                &&& (#[trigger] list@.contains_key(field) <==> data@.stored.contains_key(doc)
                    && data@.stored[doc].contains_key(field) && pieces.len() > 0)
                &&& (list@.contains_key(field) ==> texts(list@[field]@) == pieces)
            },
    }
}

impl FtsEngine {
    /// The index of that name, if it can be searched.
    fn searchable(&self, name: &str) -> (r: std::result::Result<&FtsIndex, String>)
        requires
            self.wf(),
        ensures
            match search_error(self@, name@) {
                Some(message) => r is Err && r->Err_0@ == message,
                None => r is Ok && self.indexes@.contains_key(name@) && *r->Ok_0
                    == self.indexes@[name@] && r->Ok_0.wf(),
            },
    {
        match self.indexes.find(name) {
            None => Err(not_found_text(name)),
            Some(i) => {
                assert(self.indexes.vals@[i as int].wf());
                let x = &self.indexes.vals[i];
                assert(self@[name@] == x@);
                if x.definition.state == FtsIndexState::Online {
                    return Ok(x);
                }
                let mut out = "FTS index '".to_owned();
                out.append(name);
                out.append("' is not online (state: ");
                let state = x.definition.state.to_text();
                out.append(state.as_str());
                out.append(")");
                Err(out)
            },
        }
    }

    /// What a search finds: for each document what its score is made of.
    pub fn search(&self, request: &FtsSearchRequest) -> (r: std::result::Result<Scores, String>)
        requires
            self.wf(),
            query_fits(request.query),
        ensures
            match search_error(self@, request.index@) {
                Some(message) => r is Err && r->Err_0@ == message,
                None => r is Ok && r->Ok_0.wf() && forall|d: Seq<char>| #[trigger]
                    r->Ok_0.of(d) == score(
                        self.indexes@[request.index@].data,
                        self.indexes@[request.index@].definition@,
                        request.query,
                        d,
                    ),
            },
    {
        match self.searchable(request.index.as_str()) {
            Err(message) => Err(message),
            Ok(x) => {
                Ok(execute_query(&x.data, &x.definition, &request.query))
            },
        }
    }

    /// The page of results that was asked for, from what was found and the weights it was given.
    pub fn page(&self, request: &FtsSearchRequest, found: &Scores, weights: &Vec<u64>) -> (r:
        std::result::Result<FtsPage, String>)
        requires
            self.wf(),
            query_fits(request.query),
            found.wf(),
            weights@.len() == found.map.keys@.len(),
        ensures
            match search_error(self@, request.index@) {
                Some(message) => r is Err && r->Err_0@ == message,
                None => match r {
                    Err(_) => false,
                    Ok(p) => {
                        let n = found.map.keys@.len() as int;
                        let start = page_start(n, request.from);
                        let end = page_end(n, request.from, request.size);
                        &&& p.total_hits == n
                        &&& p.hits@.len() == end - start
                        &&& is_greatest(p.max_weight, weights@)
                        &&& exists|order: Seq<usize>|
                            {
                                &&& #[trigger] is_ranking(
                                    order,
                                    texts(request.sort@),
                                    candidates(
                                        self.indexes@[request.index@].data@.stored,
                                        texts(found.map.keys@),
                                        weights@,
                                    ),
                                    n,
                                )
                                &&& forall|i: int|
                                    0 <= i < end - start ==> hit_shows(
                                        #[trigger] p.hits@[i],
                                        self.indexes@[request.index@].data,
                                        self.indexes@[request.index@].definition@,
                                        *request,
                                        found.map.keys@[order[start + i] as int]@,
                                        weights@[order[start + i] as int],
                                    )
                            }
                    },
                },
            },
    {
        match self.searchable(request.index.as_str()) {
            Err(message) => Err(message),
            Ok(x) => {
                let order = rank(&x.data, &found.map.keys, weights, &request.sort);
                let n: usize = order.len();
                let max_weight = greatest(weights);
                let ghost items = candidates(x.data@.stored, texts(found.map.keys@), weights@);
                let ghost keys = texts(request.sort@);
                let start: usize = if request.from < n {
                    request.from
                } else {
                    n
                };
                let end: usize = if request.size < n - start {
                    start + request.size
                } else {
                    n
                };
                let mut hits: Vec<FtsHit> = Vec::new();
                let mut k: usize = start;
                while k < end
                    invariant
                        start <= k <= end <= n,
                        n == order@.len(),
                        n == weights@.len(),
                        n == found.map.keys@.len(),
                        is_ranking(order@, keys, items, n as int),
                        x.wf(),
                        query_fits(request.query),
                        hits@.len() == k - start,
                        forall|j: int|
                            0 <= j < k - start ==> hit_shows(
                                #[trigger] hits@[j],
                                x.data,
                                x.definition@,
                                *request,
                                found.map.keys@[order@[start + j] as int]@,
                                weights@[order@[start + j] as int],
                            ),
                    decreases end - k,
                {
                    let at: usize = order[k];
                    let id = found.map.keys[at].clone();
                    let fields = shown_fields(&x.data, id.as_str(), &request.fields);
                    let fragments = if request.highlight {
                        Some(
                            generate_highlights(
                                &x.data,
                                &x.definition,
                                id.as_str(),
                                &request.query,
                            ),
                        )
                    } else {
                        None
                    };
                    hits.push(
                        FtsHit {
                            index: request.index.clone(),
                            id,
                            weight: weights[at],
                            fields,
                            fragments,
                        },
                    );
                    k = k + 1;
                }
                let page = FtsPage { total_hits: n, max_weight, hits };
                assert(is_ranking(order@, keys, items, n as int));
                Ok(page)
            },
        }
    }
}

// ---- Laws ----

/// A result tells index and document and the weight it was found with, and shows the stored texts that
/// were asked for: all where no field was named, else those of the named fields. Fragments are shown
/// exactly where they were asked for.
pub proof fn law_results_show_what_was_asked_for(
    hit: FtsHit,
    data: InvertedIndex,
    def: DefinitionView,
    request: FtsSearchRequest,
    doc: Seq<char>,
    weight: u64,
    field: Seq<char>,
)
    requires
        hit_shows(hit, data, def, request, doc, weight),
    ensures
        hit.index@ == request.index@,
        hit.id@ == doc,
        hit.weight == weight,
        hit.fragments is Some == request.highlight,
        data@.stored.contains_key(doc) ==> ({
            let asked = texts(request.fields@);
            &&& stored_view(hit.fields).contains_key(field) <==> data@.stored[doc].contains_key(field)
                && (asked.len() == 0 || asked.contains(field))
            &&& stored_view(hit.fields).contains_key(field) ==> stored_view(hit.fields)[field]
                == data@.stored[doc][field]
        }),
        !data@.stored.contains_key(doc) ==> !stored_view(hit.fields).contains_key(field),
{
}

/// The greatest weight is one of the weights, and none is greater; without weights there is none.
pub proof fn law_greatest_weight(max: Option<u64>, weights: Seq<u64>, i: int)
    requires
        is_greatest(max, weights),
    ensures
        max is Some <==> weights.len() > 0,
        max is Some ==> weights.contains(max->0),
        max is Some && 0 <= i < weights.len() ==> weights[i] <= max->0,
{
    if weights.len() > 0 {
        assert(max is Some);
    }
}

} // verus!
