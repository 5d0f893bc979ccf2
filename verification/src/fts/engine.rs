//! The search engine: its indexes, how they follow the documents, and how they are searched.

use crate::clock::{rfc3339, rfc3339_of, utc_now};
use crate::fts::analyzer::{AnalyzerConfig, AnalyzerView};
use crate::fts::definition::{DefinitionView, FtsIndexDefinition, FtsIndexState};
use crate::fts::inverted::{document_fits, IndexView, InvertedIndex};
use crate::json::Json;
use crate::fts::json::{mapping_views, FtsFieldMapping, MappingView};
use crate::strmap::StrMap;
use crate::text::same_text;
use vstd::prelude::*;
use vstd::string::*;

verus! {

/// An index: what it covers, and its data.
pub struct FtsIndex {
    pub definition: FtsIndexDefinition,
    pub data: InvertedIndex,
}

/// What an [`FtsIndex`] stands for.
#[verifier::ext_equal]
pub struct FtsIndexView {
    pub definition: DefinitionView,
    pub data: IndexView,
}

impl View for FtsIndex {
    type V = FtsIndexView;

    open spec fn view(&self) -> FtsIndexView {
        FtsIndexView { definition: self.definition@, data: self.data@ }
    }
}

impl FtsIndex {
    /// The data are sound and counted.
    pub open spec fn wf(self) -> bool {
        self.data.wf() && self.data.is_counted()
    }
}

/// A document to index.
pub struct FtsDocument {
    pub key: String,
    pub value: Json,
    pub deleted: bool,
}

/// The search engine.
pub struct FtsEngine {
    pub indexes: StrMap<FtsIndex>,
}

/// What indexes stand for.
pub open spec fn index_views(m: Map<Seq<char>, FtsIndex>) -> Map<Seq<char>, FtsIndexView> {
    m.map_values(|x: FtsIndex| x@)
}

/// The number of terms in the first `k` fields.
pub open spec fn terms_in_fields(v: InvertedIndex, k: int) -> nat
    decreases k,
{
    if k <= 0 {
        0
    } else {
        terms_in_fields(v, k - 1) + v.fields.vals@[k - 1].postings.keys@.len()
    }
}

/// The number of terms of an index, as far as it can be counted.
pub open spec fn term_count_of(v: InvertedIndex) -> usize {
    let n = terms_in_fields(v, v.fields.vals@.len() as int);
    if n <= usize::MAX {
        n as usize
    } else {
        usize::MAX
    }
}

fn count_terms(v: &InvertedIndex) -> (r: usize)
    ensures
        r == term_count_of(*v),
{
    let mut total: usize = 0;
    let mut k: usize = 0;
    while k < v.fields.vals.len()
        invariant
            k <= v.fields.vals@.len(),
            total == if terms_in_fields(*v, k as int) <= usize::MAX {
                terms_in_fields(*v, k as int)
            } else {
                usize::MAX as nat
            },
        decreases v.fields.vals@.len() - k,
    {
        let more: usize = v.fields.vals[k].postings.keys.len();
        if more <= usize::MAX - total {
            total = total + more;
        } else {
            total = usize::MAX;
        }
        k = k + 1;
    }
    total
}

/// The index over the documents among the first `k` that are not deleted.
pub open spec fn built(def: DefinitionView, docs: Seq<FtsDocument>, k: int) -> IndexView
    decreases k,
{
    if k <= 0 {
        IndexView::fresh()
    } else if docs[k - 1].deleted {
        built(def, docs, k - 1)
    } else {
        built(def, docs, k - 1).with_document(def, docs[k - 1].key@, docs[k - 1].value)
    }
}

/// The number of documents among the first `k` that are not deleted.
pub open spec fn live(docs: Seq<FtsDocument>, k: int) -> nat
    decreases k,
{
    if k <= 0 {
        0
    } else {
        live(docs, k - 1) + if docs[k - 1].deleted {
            0nat
        } else {
            1nat
        }
    }
}

/// Whether all documents can be tokenized.
pub open spec fn documents_fit(def: DefinitionView, docs: Seq<FtsDocument>) -> bool {
    forall|i: int|
        0 <= i < docs.len() && !docs[i].deleted ==> document_fits(
            def,
            (#[trigger] docs[i]).value,
        )
}

fn build(def: &FtsIndexDefinition, docs: &Vec<FtsDocument>) -> (r: (InvertedIndex, usize))
    requires
        documents_fit(def@, docs@),
    ensures
        r.0.wf(),
        r.0.is_counted(),
        r.0@ == built(def@, docs@, docs@.len() as int).settled(),
        r.1 == live(docs@, docs@.len() as int),
{
    let mut data = InvertedIndex::new();
    let mut count: usize = 0;
    let mut k: usize = 0;
    while k < docs.len()
        invariant
            k <= docs@.len(),
            documents_fit(def@, docs@),
            data.wf(),
            data@ == built(def@, docs@, k as int),
            count == live(docs@, k as int),
            count <= k,
        decreases docs@.len() - k,
    {
        if !docs[k].deleted {
            data.index_document_into(def, docs[k].key.as_str(), &docs[k].value);
            count = count + 1;
        }
        k = k + 1;
    }
    data.recompute_avg_field_len();
    (data, count)
}

/// The message that there is no such index.
pub open spec fn not_found(name: Seq<char>) -> Seq<char> {
    "FTS index '"@ + name + "' not found"@
}

pub(crate) fn not_found_text(name: &str) -> (r: String)
    ensures
        r@ == not_found(name@),
{
    let mut out = "FTS index '".to_owned();
    out.append(name);
    out.append("' not found");
    out
}

/// The definition of an index that was just made.
pub open spec fn made(
    name: Seq<char>,
    bucket: Seq<char>,
    fields: Seq<MappingView>,
    analyzer: Option<AnalyzerView>,
    now: i128,
) -> DefinitionView {
    DefinitionView {
        name,
        bucket,
        scope: "_default"@,
        collection: "_default"@,
        fields,
        analyzer: match analyzer {
            Some(a) => a,
            None => AnalyzerView::standard(),
        },
        state: FtsIndexState::Building,
        created_at: rfc3339_of(now),
        doc_count: 0,
        term_count: 0,
    }
}

/// What the configuration of an analyzer stands for, if there is one.
pub open spec fn opt_analyzer(a: Option<AnalyzerConfig>) -> Option<AnalyzerView> {
    match a {
        Some(c) => Some(c@),
        None => None,
    }
}

/// What becomes of the indexes when one is built, and what is said.
pub enum BuildView {
    Done(nat),
    Failed(Seq<char>),
}

/// What building an index comes to.
pub open spec fn build_outcome(
    indexes: Map<Seq<char>, FtsIndexView>,
    name: Seq<char>,
    docs: std::result::Result<Vec<FtsDocument>, String>,
) -> BuildView {
    if !indexes.contains_key(name) {
        BuildView::Failed(not_found(name))
    } else {
        match docs {
            Ok(list) => BuildView::Done(live(list@, list@.len() as int)),
            Err(message) => BuildView::Failed("Bucket error: "@ + message@),
        }
    }
}

/// Whether an index follows the documents of a bucket.
pub open spec fn follows_bucket(def: DefinitionView, bucket: Seq<char>) -> bool {
    def.bucket == bucket && def.state == FtsIndexState::Online
}

/// The data of an index after a document was written, if it follows the bucket.
pub open spec fn after_upsert(x: FtsIndexView, bucket: Seq<char>, doc: Seq<char>, value: Json) -> IndexView {
    if follows_bucket(x.definition, bucket) {
        x.data.without(doc).with_document(x.definition, doc, value).settled()
    } else {
        x.data
    }
}

/// The data of an index after a document was deleted, if it follows the bucket.
pub open spec fn after_delete(x: FtsIndexView, bucket: Seq<char>, doc: Seq<char>) -> IndexView {
    if follows_bucket(x.definition, bucket) {
        x.data.without(doc).settled()
    } else {
        x.data
    }
}

/// The definition of an index once its documents and terms have been counted anew.
pub open spec fn recounted(def: DefinitionView, data: InvertedIndex) -> DefinitionView {
    DefinitionView { doc_count: data.total_docs, term_count: term_count_of(data), ..def }
}

fn matches_bucket(def: &FtsIndexDefinition, bucket: &str) -> (r: bool)
    ensures
        r == follows_bucket(def@, bucket@),
{
    same_text(def.bucket.as_str(), bucket) && def.state == FtsIndexState::Online
}

/// The values of a map keep what holds of each of them.
proof fn lemma_indexes_kept(before: StrMap<FtsIndex>, after: StrMap<FtsIndex>, name: Seq<char>)
    requires
        before.wf(),
        forall|i: int| 0 <= i < before.vals@.len() ==> (#[trigger] before.vals@[i]).wf(),
        after.wf(),
        forall|k: Seq<char>|
            after@.contains_key(k) && k != name ==> before@.contains_key(k) && before@[k]
                == #[trigger] after@[k],
        after@.contains_key(name) ==> after@[name].wf(),
    ensures
        forall|i: int| 0 <= i < after.vals@.len() ==> (#[trigger] after.vals@[i]).wf(),
{
    assert forall|i: int| 0 <= i < after.vals@.len() implies (#[trigger] after.vals@[i]).wf() by {
        after.lemma_place(i);
        let k = after.keys@[i]@;
        if k != name {
            assert(before@[k] == after@[k]);
            let p = before.place(k);
            assert(before.at(k, p));
            assert(before.vals@[p].wf());
        }
    }
}

impl View for FtsEngine {
    type V = Map<Seq<char>, FtsIndexView>;

    open spec fn view(&self) -> Map<Seq<char>, FtsIndexView> {
        index_views(self.indexes@)
    }
}

impl FtsEngine {
    /// No name occurs twice, and all data are sound and counted.
    pub open spec fn wf(self) -> bool {
        &&& self.indexes.wf()
        &&& forall|i: int|
            0 <= i < self.indexes.vals@.len() ==> (#[trigger] self.indexes.vals@[i]).wf()
    }

    /// An engine without indexes.
    pub fn new() -> (r: FtsEngine)
        ensures
            r.wf(),
            r@ == Map::<Seq<char>, FtsIndexView>::empty(),
    {
        let r = FtsEngine { indexes: StrMap::new() };
        assert(r@ =~= Map::<Seq<char>, FtsIndexView>::empty());
        r
    }

    /// Makes an index, empty until it is built.
    pub fn create_index_at(
        &mut self,
        name: &str,
        bucket: &str,
        fields: Vec<FtsFieldMapping>,
        analyzer: Option<AnalyzerConfig>,
        now: i128,
    ) -> (r: std::result::Result<FtsIndexDefinition, String>)
        requires
            old(self).wf(),
        ensures
            final(self).wf(),
            ({
                let def = made(name@, bucket@, mapping_views(fields@), opt_analyzer(analyzer), now);
                if old(self)@.contains_key(name@) {
                    final(self)@ == old(self)@ && match r {
                        Ok(_) => false,
                        Err(e) => e@ == "FTS index '"@ + name@ + "' already exists"@,
                    }
                } else {
                    &&& final(self)@ == old(self)@.insert(
                        name@,
                        FtsIndexView { definition: def, data: IndexView::fresh() },
                    )
                    &&& match r {
                        Ok(d) => d@ == def,
                        Err(_) => false,
                    }
                }
            }),
    {
        let ghost before = *self;
        if self.indexes.contains_key(name) {
            let mut out = "FTS index '".to_owned();
            out.append(name);
            out.append("' already exists");
            return Err(out);
        }
        let ghost view = made(
            name@,
            bucket@,
            mapping_views(fields@),
            opt_analyzer(analyzer),
            now,
        );
        let analyzer = match analyzer {
            Some(a) => a,
            None => AnalyzerConfig::default(),
        };
        let def = FtsIndexDefinition {
            name: name.to_owned(),
            bucket: bucket.to_owned(),
            scope: "_default".to_owned(),
            collection: "_default".to_owned(),
            fields,
            analyzer,
            state: FtsIndexState::Building,
            created_at: rfc3339(now),
            doc_count: 0,
            term_count: 0,
        };
        assert(def@ =~= view);
        let copy = def.copy();
        self.indexes.insert(
            name.to_owned(),
            FtsIndex { definition: def, data: InvertedIndex::new() },
        );
        proof {
            lemma_indexes_kept(before.indexes, self.indexes, name@);
            assert(self@ =~= before@.insert(
                name@,
                FtsIndexView { definition: view, data: IndexView::fresh() },
            ));
        }
        Ok(copy)
    }

    /// Makes an index, empty until it is built.
    pub fn create_index(
        &mut self,
        name: &str,
        bucket: &str,
        fields: Vec<FtsFieldMapping>,
        analyzer: Option<AnalyzerConfig>,
    ) -> (r: std::result::Result<FtsIndexDefinition, String>)
        requires
            old(self).wf(),
        ensures
            final(self).wf(),
            if old(self)@.contains_key(name@) {
                final(self)@ == old(self)@ && match r {
                    Ok(_) => false,
                    Err(e) => e@ == "FTS index '"@ + name@ + "' already exists"@,
                }
            } else {
                exists|now: i128| #[trigger]
                    made(name@, bucket@, mapping_views(fields@), opt_analyzer(analyzer), now)
                        == final(self)@[name@].definition && final(self)@ == old(self)@.insert(
                        name@,
                        FtsIndexView {
                            definition: final(self)@[name@].definition,
                            data: IndexView::fresh(),
                        },
                    ) && match r {
                        Ok(d) => d@ == final(self)@[name@].definition,
                        Err(_) => false,
                    }
            },
    {
        let now: i128 = utc_now();
        self.create_index_at(name, bucket, fields, analyzer, now)
    }

    /// Builds an index anew over the documents of its bucket, or says why they cannot be had.
    pub fn build_index(
        &mut self,
        name: &str,
        docs: &std::result::Result<Vec<FtsDocument>, String>,
    ) -> (r: std::result::Result<usize, String>)
        requires
            old(self).wf(),
            old(self)@.contains_key(name@) && *docs is Ok ==> documents_fit(
                old(self)@[name@].definition,
                docs->Ok_0@,
            ),
        ensures
            final(self).wf(),
            match build_outcome(old(self)@, name@, *docs) {
                BuildView::Done(count) => {
                    let list = docs->Ok_0@;
                    let was = old(self)@[name@].definition;
                    &&& r is Ok && r->Ok_0 == count
                    &&& final(self).indexes@.contains_key(name@)
                    &&& final(self)@ == old(self)@.insert(
                        name@,
                        FtsIndexView {
                            definition: DefinitionView {
                                state: FtsIndexState::Online,
                                doc_count: count as usize,
                                term_count: term_count_of(final(self).indexes@[name@].data),
                                ..was
                            },
                            data: built(was, list, list.len() as int).settled(),
                        },
                    )
                },
                BuildView::Failed(message) => {
                    &&& r is Err && r->Err_0@ == message
                    &&& final(self)@ == old(self)@
                },
            },
    {
        let ghost before = *self;
        match self.indexes.find(name) {
            None => Err(not_found_text(name)),
            Some(i) => match docs {
                Err(message) => {
                    let mut out = "Bucket error: ".to_owned();
                    out.append(message.as_str());
                    Err(out)
                },
                Ok(list) => {
                    let ghost was = self.indexes.vals@[i as int].definition@;
                    let (data, count) = build(&self.indexes.vals[i].definition, list);
                    let terms: usize = count_terms(&data);
                    let ghost kept = data;
                    let x = &mut self.indexes.vals[i];
                    x.definition.state = FtsIndexState::Online;
                    x.definition.doc_count = count;
                    x.definition.term_count = terms;
                    x.data = data;
                    proof {
                        StrMap::lemma_replaced(before.indexes, self.indexes, i as int);
                        self.indexes.lemma_place(i as int);
                        lemma_indexes_kept(before.indexes, self.indexes, name@);
                        let after = FtsIndexView {
                            definition: DefinitionView {
                                state: FtsIndexState::Online,
                                doc_count: count,
                                term_count: terms,
                                ..was
                            },
                            data: kept@,
                        };
                        assert(self.indexes@[name@]@ =~= after);
                        assert(self@ =~= before@.insert(name@, after));
                    }
                    Ok(count)
                },
            },
        }
    }

    /// Takes over the definition of an index, unless there is one of that name, and builds it over
    /// the documents of its bucket; where they cannot be had, the index is offline. Says whether it
    /// was taken over.
    pub fn load_definition(
        &mut self,
        def: FtsIndexDefinition,
        docs: &std::result::Result<Vec<FtsDocument>, String>,
    ) -> (r: bool)
        requires
            old(self).wf(),
            *docs is Ok ==> documents_fit(def@, docs->Ok_0@),
        ensures
            final(self).wf(),
            r == !old(self)@.contains_key(def@.name),
            !r ==> final(self)@ == old(self)@,
            r ==> final(self).indexes@.contains_key(def@.name),
            r ==> final(self)@ == old(self)@.insert(
                def@.name,
                match *docs {
                    Ok(list) => FtsIndexView {
                        definition: DefinitionView {
                            state: FtsIndexState::Online,
                            doc_count: live(list@, list@.len() as int) as usize,
                            term_count: term_count_of(final(self).indexes@[def@.name].data),
                            ..def@
                        },
                        data: built(def@, list@, list@.len() as int).settled(),
                    },
                    Err(_) => FtsIndexView {
                        definition: DefinitionView { state: FtsIndexState::Offline, ..def@ },
                        data: IndexView::fresh(),
                    },
                },
            ),
    {
        let ghost before = *self;
        let ghost view = def@;
        let name = def.name.clone();
        if self.indexes.contains_key(name.as_str()) {
            return false;
        }
        let mut def = def;
        match docs {
            Err(_) => {
                def.state = FtsIndexState::Offline;
                self.indexes.insert(
                    name.clone(),
                    FtsIndex { definition: def, data: InvertedIndex::new() },
                );
                proof {
                    lemma_indexes_kept(before.indexes, self.indexes, name@);
                    let after = FtsIndexView {
                        definition: DefinitionView { state: FtsIndexState::Offline, ..view },
                        data: IndexView::fresh(),
                    };
                    assert(self.indexes@[name@]@ =~= after);
                    assert(self@ =~= before@.insert(name@, after));
                }
            },
            Ok(list) => {
                self.indexes.insert(
                    name.clone(),
                    FtsIndex { definition: def, data: InvertedIndex::new() },
                );
                proof {
                    lemma_indexes_kept(before.indexes, self.indexes, name@);
                    assert(self.indexes@[name@]@.definition =~= view);
                }
                let ghost mid = self@;
                let _outcome = self.build_index(name.as_str(), docs);
                assert(self@ =~= before@.insert(name@, self@[name@])) by {
                    assert(mid =~= before@.insert(name@, mid[name@]));
                }
            },
        }
        true
    }

    /// Drops an index.
    pub fn drop_index(&mut self, name: &str) -> (r: std::result::Result<(), String>)
        requires
            old(self).wf(),
        ensures
            final(self).wf(),
            final(self)@ == old(self)@.remove(name@),
            match r {
                Ok(_) => old(self)@.contains_key(name@),
                Err(e) => !old(self)@.contains_key(name@) && e@ == not_found(name@),
            },
    {
        let ghost before = *self;
        let gone = self.indexes.remove(name);
        proof {
            lemma_indexes_kept(before.indexes, self.indexes, name@);
            assert(self@ =~= before@.remove(name@));
        }
        match gone {
            Some(_) => Ok(()),
            None => Err(not_found_text(name)),
        }
    }

    /// The definition of an index.
    pub fn get_index(&self, name: &str) -> (r: Option<FtsIndexDefinition>)
        requires
            self.wf(),
        ensures
            match r {
                Some(d) => self@.contains_key(name@) && d@ == self@[name@].definition,
                None => !self@.contains_key(name@),
            },
    {
        match self.indexes.get(name) {
            Some(x) => Some(x.definition.copy()),
            None => None,
        }
    }

    /// The definitions of all indexes.
    pub fn list_indexes(&self) -> (r: Vec<FtsIndexDefinition>)
        requires
            self.wf(),
        ensures
            r@.len() == self.indexes.keys@.len(),
            forall|i: int|
                0 <= i < r@.len() ==> self@.contains_key(#[trigger] self.indexes.keys@[i]@) && r@[i]@
                    == self@[self.indexes.keys@[i]@].definition,
            forall|name: Seq<char>| #[trigger]
                self@.contains_key(name) ==> exists|i: int|
                    0 <= i < r@.len() && #[trigger] self.indexes.keys@[i]@ == name,
    {
        let mut out: Vec<FtsIndexDefinition> = Vec::new();
        let mut k: usize = 0;
        while k < self.indexes.vals.len()
            invariant
                k <= self.indexes.vals@.len(),
                self.wf(),
                out@.len() == k,
                forall|i: int|
                    0 <= i < k ==> (#[trigger] out@[i])@ == self.indexes.vals@[i].definition@,
            decreases self.indexes.vals@.len() - k,
        {
            out.push(self.indexes.vals[k].definition.copy());
            k = k + 1;
        }
        proof {
            assert forall|i: int| 0 <= i < out@.len() implies self@.contains_key(
                #[trigger] self.indexes.keys@[i]@,
            ) && out@[i]@ == self@[self.indexes.keys@[i]@].definition by {
                self.indexes.lemma_place(i);
            }
            assert forall|name: Seq<char>| #[trigger] self@.contains_key(name) implies exists|i: int|
                0 <= i < out@.len() && #[trigger] self.indexes.keys@[i]@ == name by {
                assert(self.indexes@.contains_key(name));
                let i = self.indexes.place(name);
                assert(self.indexes.at(name, i));
                assert(self.indexes.keys@[i]@ == name);
            }
        }
        out
    }

    /// Has the indexes that follow a bucket take in a document that was written to it.
    pub fn on_document_upsert(&mut self, bucket: &str, doc: &str, value: &Json)
        requires
            old(self).wf(),
            forall|name: Seq<char>| #[trigger]
                old(self)@.contains_key(name) && follows_bucket(
                    old(self)@[name].definition,
                    bucket@,
                ) ==> document_fits(old(self)@[name].definition, *value),
        ensures
            final(self).wf(),
            final(self)@.dom() == old(self)@.dom(),
            final(self).indexes@.dom() == old(self)@.dom(),
            forall|name: Seq<char>| #[trigger]
                old(self)@.contains_key(name) ==> final(self)@[name] == (FtsIndexView {
                    data: after_upsert(old(self)@[name], bucket@, doc@, *value),
                    definition: if follows_bucket(old(self)@[name].definition, bucket@) {
                        recounted(old(self)@[name].definition, final(self).indexes@[name].data)
                    } else {
                        old(self)@[name].definition
                    },
                }),
    {
        let ghost before = *self;
        let n: usize = self.indexes.vals.len();
        let mut k: usize = 0;
        while k < n
            invariant
                k <= n,
                before == *old(self),
                before.wf(),
                n == before.indexes.vals@.len(),
                self.indexes.keys@ == before.indexes.keys@,
                self.indexes.vals@.len() == n,
                forall|name: Seq<char>| #[trigger]
                    before@.contains_key(name) && follows_bucket(
                        before@[name].definition,
                        bucket@,
                    ) ==> document_fits(before@[name].definition, *value),
                forall|i: int|
                    0 <= i < k ==> (#[trigger] self.indexes.vals@[i]).wf()
                        && self.indexes.vals@[i].data@ == after_upsert(
                        before.indexes.vals@[i]@,
                        bucket@,
                        doc@,
                        *value,
                    ) && self.indexes.vals@[i].definition@ == if follows_bucket(
                        before.indexes.vals@[i]@.definition,
                        bucket@,
                    ) {
                        recounted(
                            before.indexes.vals@[i]@.definition,
                            self.indexes.vals@[i].data,
                        )
                    } else {
                        before.indexes.vals@[i]@.definition
                    },
                forall|i: int|
                    k <= i < n ==> #[trigger] self.indexes.vals@[i] == before.indexes.vals@[i],
            decreases n - k,
        {
            proof {
                before.indexes.lemma_place(k as int);
                assert(before@.contains_key(before.indexes.keys@[k as int]@));
                assert(before.indexes.vals@[k as int].wf());
                assert(self.indexes.vals@[k as int] == before.indexes.vals@[k as int]);
            }
            let x = &mut self.indexes.vals[k];
            if matches_bucket(&x.definition, bucket) {
                x.data.remove_document_from(doc);
                x.data.index_document_into(&x.definition, doc, value);
                x.data.recompute_avg_field_len();
                x.definition.doc_count = x.data.total_docs;
                x.definition.term_count = count_terms(&x.data);
            }
            k = k + 1;
        }
        proof {
            StrMap::lemma_same_keys(self.indexes, before.indexes);
            assert(self@.dom() =~= before@.dom());
            assert(self.indexes@.dom() =~= before@.dom());
            assert forall|name: Seq<char>| #[trigger] before@.contains_key(name) implies self@[name]
                == (FtsIndexView {
                data: after_upsert(before@[name], bucket@, doc@, *value),
                definition: if follows_bucket(before@[name].definition, bucket@) {
                    recounted(before@[name].definition, self.indexes@[name].data)
                } else {
                    before@[name].definition
                },
            }) by {
                assert(self.indexes@.contains_key(name));
            }
        }
    }

    /// Has the indexes that follow a bucket take out a document that was deleted from it.
    pub fn on_document_delete(&mut self, bucket: &str, doc: &str)
        requires
            old(self).wf(),
        ensures
            final(self).wf(),
            final(self)@.dom() == old(self)@.dom(),
            final(self).indexes@.dom() == old(self)@.dom(),
            forall|name: Seq<char>| #[trigger]
                old(self)@.contains_key(name) ==> final(self)@[name] == (FtsIndexView {
                    data: after_delete(old(self)@[name], bucket@, doc@),
                    definition: if follows_bucket(old(self)@[name].definition, bucket@) {
                        recounted(old(self)@[name].definition, final(self).indexes@[name].data)
                    } else {
                        old(self)@[name].definition
                    },
                }),
    {
        let ghost before = *self;
        let n: usize = self.indexes.vals.len();
        let mut k: usize = 0;
        while k < n
            invariant
                k <= n,
                before == *old(self),
                before.wf(),
                n == before.indexes.vals@.len(),
                self.indexes.keys@ == before.indexes.keys@,
                self.indexes.vals@.len() == n,
                forall|i: int|
                    0 <= i < k ==> (#[trigger] self.indexes.vals@[i]).wf()
                        && self.indexes.vals@[i].data@ == after_delete(
                        before.indexes.vals@[i]@,
                        bucket@,
                        doc@,
                    ) && self.indexes.vals@[i].definition@ == if follows_bucket(
                        before.indexes.vals@[i]@.definition,
                        bucket@,
                    ) {
                        recounted(
                            before.indexes.vals@[i]@.definition,
                            self.indexes.vals@[i].data,
                        )
                    } else {
                        before.indexes.vals@[i]@.definition
                    },
                forall|i: int|
                    k <= i < n ==> #[trigger] self.indexes.vals@[i] == before.indexes.vals@[i],
            decreases n - k,
        {
            proof {
                assert(before.indexes.vals@[k as int].wf());
                assert(self.indexes.vals@[k as int] == before.indexes.vals@[k as int]);
            }
            let x = &mut self.indexes.vals[k];
            if matches_bucket(&x.definition, bucket) {
                x.data.remove_document_from(doc);
                x.data.recompute_avg_field_len();
                x.definition.doc_count = x.data.total_docs;
                x.definition.term_count = count_terms(&x.data);
            }
            k = k + 1;
        }
        proof {
            StrMap::lemma_same_keys(self.indexes, before.indexes);
            assert(self@.dom() =~= before@.dom());
            assert(self.indexes@.dom() =~= before@.dom());
            assert forall|name: Seq<char>| #[trigger] before@.contains_key(name) implies self@[name]
                == (FtsIndexView {
                data: after_delete(before@[name], bucket@, doc@),
                definition: if follows_bucket(before@[name].definition, bucket@) {
                    recounted(before@[name].definition, self.indexes@[name].data)
                } else {
                    before@[name].definition
                },
            }) by {
                assert(self.indexes@.contains_key(name));
            }
        }
    }
}

// ---- Laws ----

/// An index is built from the live documents of its bucket; there has to be an index of that name,
/// and its bucket has to be read.
pub proof fn law_building_counts_the_live(
    indexes: Map<Seq<char>, FtsIndexView>,
    name: Seq<char>,
    docs: Vec<FtsDocument>,
    message: String,
)
    ensures
        !indexes.contains_key(name) ==> build_outcome(indexes, name, Ok(docs)) is Failed
            && build_outcome(indexes, name, Err(message)) is Failed,
        indexes.contains_key(name) ==> build_outcome(indexes, name, Ok(docs)) == BuildView::Done(
            docs@.filter(|d: FtsDocument| !d.deleted).len(),
        ),
        indexes.contains_key(name) ==> build_outcome(indexes, name, Err(message)) == BuildView::Failed(
            "Bucket error: "@ + message@,
        ),
{
    assert(docs@.take(docs@.len() as int) =~= docs@);
    lemma_live(docs@, docs@.len() as int);
}

proof fn lemma_live(docs: Seq<FtsDocument>, k: int)
    requires
        0 <= k <= docs.len(),
    ensures
        live(docs, k) == docs.take(k).filter(|d: FtsDocument| !d.deleted).len(),
    decreases k,
{
    reveal(Seq::filter);
    if k > 0 {
        lemma_live(docs, k - 1);
        assert(docs.take(k).drop_last() =~= docs.take(k - 1));
    }
}

/// A new index covers the fields that were asked for in the default collection of its bucket, and is
/// empty and not yet built.
pub proof fn law_new_indexes_are_empty(
    name: Seq<char>,
    bucket: Seq<char>,
    fields: Seq<MappingView>,
    analyzer: AnalyzerView,
    now: i128,
)
    ensures
        ({
            let def = made(name, bucket, fields, Some(analyzer), now);
            &&& def.name == name
            &&& def.bucket == bucket
            &&& def.scope == "_default"@
            &&& def.collection == "_default"@
            &&& def.fields == fields
            &&& def.analyzer == analyzer
            &&& def.state == FtsIndexState::Building
            &&& def.created_at == rfc3339_of(now)
            &&& def.doc_count == 0
            &&& def.term_count == 0
            &&& made(name, bucket, fields, None, now) == (DefinitionView {
                analyzer: AnalyzerView::standard(),
                ..def
            })
        }),
{
}

/// A definition that is counted anew tells the documents and the terms of its index, and is otherwise
/// unchanged.
pub proof fn law_counts_are_told(def: DefinitionView, data: InvertedIndex)
    ensures
        recounted(def, data).doc_count == data.total_docs,
        recounted(def, data).term_count == term_count_of(data),
        recounted(def, data) == (DefinitionView {
            doc_count: recounted(def, data).doc_count,
            term_count: recounted(def, data).term_count,
            ..def
        }),
        terms_in_fields(data, data.fields.vals@.len() as int) <= usize::MAX ==> term_count_of(data)
            == Seq::new(
            data.fields.vals@.len(),
            |i: int| data.fields.vals@[i].postings.keys@.len(),
        ).fold_left(0nat, |sum: nat, n: nat| sum + n),
{
    let a = Seq::new(
        data.fields.vals@.len(),
        |i: int| data.fields.vals@[i].postings.keys@.len(),
    );
    assert(a.take(a.len() as int) =~= a);
    lemma_terms_in_fields(data, data.fields.vals@.len() as int);
}

proof fn lemma_terms_in_fields(data: InvertedIndex, k: int)
    requires
        0 <= k <= data.fields.vals@.len(),
    ensures
        terms_in_fields(data, k) == Seq::new(
            data.fields.vals@.len(),
            |i: int| data.fields.vals@[i].postings.keys@.len(),
        ).take(k).fold_left(0nat, |sum: nat, n: nat| sum + n),
    decreases k,
{
    let a = Seq::new(
        data.fields.vals@.len(),
        |i: int| data.fields.vals@[i].postings.keys@.len(),
    );
    if k > 0 {
        lemma_terms_in_fields(data, k - 1);
        assert(a.take(k).drop_last() =~= a.take(k - 1));
    }
}

} // verus!
