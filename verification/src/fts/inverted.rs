//! The index of all fields of a collection of documents.

use crate::fts::analyzer::{tokenize, tokens_of, AnalyzerView};
use crate::fts::definition::{DefinitionView, FtsIndexDefinition};
use crate::fts::index::{FieldIndex, FieldView};
use crate::json::Json;
use crate::fts::json::{
    content_of, copy_mappings, discover_string_fields, field_content, found_mappings,
    get_nested_value, mapping_views, nested, text_paths, FieldContent, MappingView,
};
use crate::strmap::StrMap;
use crate::text_split::split;
use vstd::prelude::*;
use vstd::string::*;

verus! {

/// The stored texts of a document.
pub open spec fn stored_view(m: StrMap<String>) -> Map<Seq<char>, Seq<char>> {
    m@.map_values(|s: String| s@)
}

/// The indexes of the fields.
pub open spec fn fields_view(m: StrMap<FieldIndex>) -> Map<Seq<char>, FieldView> {
    m@.map_values(|f: FieldIndex| f@)
}

/// The index of all fields of a collection of documents.
pub struct InvertedIndex {
    pub fields: StrMap<FieldIndex>,
    /// For each document the texts of its stored fields.
    pub stored: StrMap<StrMap<String>>,
    pub total_docs: usize,
}

/// What an [`InvertedIndex`] stands for.
#[verifier::ext_equal]
pub struct IndexView {
    pub fields: Map<Seq<char>, FieldView>,
    pub stored: Map<Seq<char>, Map<Seq<char>, Seq<char>>>,
    pub total_docs: usize,
}

/// The index of a field, fresh if there is none.
pub open spec fn field_or_fresh(fields: Map<Seq<char>, FieldView>, name: Seq<char>) -> FieldView {
    if fields.contains_key(name) {
        fields[name]
    } else {
        FieldView::fresh()
    }
}

/// What a document holds in a field.
pub open spec fn content_at(value: Json, field: Seq<char>) -> FieldContent {
    content_of(nested(value, split(field, '.'), 0))
}

/// The fields of a document that are indexed.
pub open spec fn mappings_for(def: DefinitionView, value: Json) -> Seq<MappingView> {
    if def.fields.len() == 0 {
        found_mappings(text_paths(value, ""@))
    } else {
        def.fields
    }
}

/// Whether the texts of a document can be tokenized: positions are counted in 32 bits.
pub open spec fn document_fits(def: DefinitionView, value: Json) -> bool {
    forall|i: int|
        0 <= i < mappings_for(def, value).len() ==> match content_at(
            value,
            (#[trigger] mappings_for(def, value)[i]).field,
        ) {
            FieldContent::Words(t) => t.len() <= u32::MAX,
            _ => true,
        }
}

/// The indexes of the fields and the stored texts, while a document is taken in.
pub struct Filling {
    pub fields: Map<Seq<char>, FieldView>,
    pub stored: Map<Seq<char>, Seq<char>>,
}

impl Filling {
    pub open spec fn keeping(self, mapping: MappingView, text: Seq<char>) -> Map<
        Seq<char>,
        Seq<char>,
    > {
        if mapping.store {
            self.stored.insert(mapping.field, text)
        } else {
            self.stored
        }
    }

    /// One more field.
    pub open spec fn with_field(
        self,
        mapping: MappingView,
        analyzer: AnalyzerView,
        content: FieldContent,
        doc: Seq<char>,
    ) -> Self {
        match content {
            FieldContent::Nothing => self,
            FieldContent::Number(t) => Filling { stored: self.keeping(mapping, t), ..self },
            FieldContent::Words(t) => if t.len() == 0 {
                self
            } else {
                Filling {
                    stored: self.keeping(mapping, t),
                    fields: self.fields.insert(
                        mapping.field,
                        field_or_fresh(self.fields, mapping.field).with_document(
                            doc,
                            tokens_of(t, analyzer),
                        ),
                    ),
                }
            },
        }
    }

    /// The first `k` fields.
    pub open spec fn with_fields(
        self,
        def: DefinitionView,
        mappings: Seq<MappingView>,
        value: Json,
        doc: Seq<char>,
        k: int,
    ) -> Self
        decreases k,
    {
        if k <= 0 {
            self
        } else {
            let m = mappings[k - 1];
            self.with_fields(def, mappings, value, doc, k - 1).with_field(
                m,
                def.analyzer_of(m.field),
                content_at(value, m.field),
                doc,
            )
        }
    }
}

impl IndexView {
    pub open spec fn fresh() -> Self {
        IndexView { fields: Map::empty(), stored: Map::empty(), total_docs: 0 }
    }

    /// The index with a document.
    pub open spec fn with_document(self, def: DefinitionView, doc: Seq<char>, value: Json) -> Self {
        let mappings = mappings_for(def, value);
        let start = Filling { fields: self.fields, stored: Map::empty() };
        let end = start.with_fields(def, mappings, value, doc, mappings.len() as int);
        IndexView { fields: end.fields, stored: self.stored.insert(doc, end.stored), ..self }
    }

    /// The index without a document.
    pub open spec fn without(self, doc: Seq<char>) -> Self {
        IndexView {
            fields: self.fields.map_values(|f: FieldView| f.without(doc)),
            stored: self.stored.remove(doc),
            ..self
        }
    }

    /// The index once its documents have been counted.
    pub open spec fn settled(self) -> Self {
        IndexView { total_docs: self.stored.len() as usize, ..self }
    }
}

/// Whether the indexes of the fields are sound.
pub open spec fn fields_wf(m: StrMap<FieldIndex>) -> bool {
    m.wf() && forall|i: int| 0 <= i < m.vals@.len() ==> (#[trigger] m.vals@[i]).wf()
}

/// Whether the stored texts are sound.
pub open spec fn stored_wf(m: StrMap<StrMap<String>>) -> bool {
    m.wf() && forall|i: int| 0 <= i < m.vals@.len() ==> (#[trigger] m.vals@[i]).wf()
}

/// The values of a map keep what holds of each of them.
proof fn lemma_fields_kept(before: StrMap<FieldIndex>, after: StrMap<FieldIndex>, name: Seq<char>)
    requires
        fields_wf(before),
        after.wf(),
        after@.contains_key(name),
        after@ == before@.insert(name, after@[name]),
        after@[name].wf(),
    ensures
        fields_wf(after),
{
    assert forall|i: int| 0 <= i < after.vals@.len() implies (#[trigger] after.vals@[i]).wf() by {
        after.lemma_place(i);
        let k = after.keys@[i]@;
        if k != name {
            assert(before@.contains_key(k));
            let p = before.place(k);
            assert(before.at(k, p));
            assert(before.vals@[p].wf());
        }
    }
}

proof fn lemma_stored_kept(
    before: StrMap<StrMap<String>>,
    after: StrMap<StrMap<String>>,
    name: Seq<char>,
)
    requires
        stored_wf(before),
        after.wf(),
        forall|k: Seq<char>|
            after@.contains_key(k) && k != name ==> before@.contains_key(k) && before@[k]
                == #[trigger] after@[k],
        after@.contains_key(name) ==> after@[name].wf(),
    ensures
        stored_wf(after),
{
    assert forall|i: int| 0 <= i < after.vals@.len() implies (#[trigger] after.vals@[i]).wf() by {
        after.lemma_place(i);
        let k = after.keys@[i]@;
        if k != name {
            assert(before@.contains_key(k));
            assert(before@[k] == after@[k]);
            let p = before.place(k);
            assert(before.at(k, p));
            assert(before.vals@[p].wf());
        }
    }
}

impl View for InvertedIndex {
    type V = IndexView;

    open spec fn view(&self) -> IndexView {
        IndexView {
            fields: fields_view(self.fields),
            stored: self.stored@.map_values(|m: StrMap<String>| stored_view(m)),
            total_docs: self.total_docs,
        }
    }
}

impl InvertedIndex {
    /// No key occurs twice, at any level.
    pub open spec fn wf(self) -> bool {
        fields_wf(self.fields) && stored_wf(self.stored)
    }

    /// Whether the counts of tokens and documents are up to date.
    pub open spec fn is_counted(self) -> bool {
        &&& self.total_docs == self@.stored.len()
        &&& forall|i: int|
            0 <= i < self.fields.vals@.len() ==> (#[trigger] self.fields.vals@[i]).is_counted()
    }

    /// The index of no documents.
    pub fn new() -> (r: InvertedIndex)
        ensures
            r.wf(),
            r.is_counted(),
            r@ == IndexView::fresh(),
            r.fields.keys@.len() == 0,
    {
        let r = InvertedIndex { fields: StrMap::new(), stored: StrMap::new(), total_docs: 0 };
        assert(r@ =~= IndexView::fresh());
        r
    }

    fn add_field(&mut self, field: &str, doc: &str, text: &str, def: &FtsIndexDefinition)
        requires
            old(self).wf(),
            text@.len() <= u32::MAX,
        ensures
            final(self).wf(),
            final(self).stored == old(self).stored,
            final(self).total_docs == old(self).total_docs,
            final(self)@.fields == old(self)@.fields.insert(
                field@,
                field_or_fresh(old(self)@.fields, field@).with_document(
                    doc@,
                    tokens_of(text@, def@.analyzer_of(field@)),
                ),
            ),
    {
        let ghost before = *self;
        let analyzer = def.get_field_analyzer(field);
        let tokens = tokenize(text, &analyzer);
        match self.fields.find(field) {
            Some(i) => {
                self.fields.vals[i].add_document(doc, &tokens);
                proof {
                    StrMap::lemma_replaced(before.fields, self.fields, i as int);
                    self.fields.lemma_place(i as int);
                    lemma_fields_kept(before.fields, self.fields, field@);
                }
            },
            None => {
                let mut fresh = FieldIndex::new();
                fresh.add_document(doc, &tokens);
                self.fields.insert(field.to_owned(), fresh);
                proof {
                    lemma_fields_kept(before.fields, self.fields, field@);
                }
            },
        }
        assert(self@.fields =~= before@.fields.insert(
            field@,
            field_or_fresh(before@.fields, field@).with_document(
                doc@,
                tokens_of(text@, def@.analyzer_of(field@)),
            ),
        ));
    }

    /// Takes in a document.
    pub fn index_document_into(&mut self, def: &FtsIndexDefinition, doc: &str, value: &Json)
        requires
            old(self).wf(),
            document_fits(def@, *value),
        ensures
            final(self).wf(),
            final(self)@ == old(self)@.with_document(def@, doc@, *value),
    {
        let mappings = if def.fields.len() == 0 {
            discover_string_fields(value, "")
        } else {
            copy_mappings(&def.fields)
        };
        let ghost before = self@;
        let ghost list = mappings_for(def@, *value);
        let ghost start = Filling { fields: self@.fields, stored: Map::empty() };
        assert(list == mapping_views(mappings@));
        let mut kept: StrMap<String> = StrMap::new();
        assert(stored_view(kept) =~= Map::<Seq<char>, Seq<char>>::empty());
        let mut k: usize = 0;
        while k < mappings.len()
            invariant
                k <= mappings@.len(),
                list == mapping_views(mappings@),
                list == mappings_for(def@, *value),
                document_fits(def@, *value),
                self.wf(),
                kept.wf(),
                self@.stored == before.stored,
                self@.total_docs == before.total_docs,
                self@.fields == start.with_fields(def@, list, *value, doc@, k as int).fields,
                stored_view(kept) == start.with_fields(
                    def@,
                    list,
                    *value,
                    doc@,
                    k as int,
                ).stored,
            decreases mappings@.len() - k,
        {
            let ghost kept0 = kept;
            let m = &mappings[k];
            assert(list[k as int] == m@);
            let content = field_content(get_nested_value(value, m.field.as_str()));
            match content {
                Some((text, is_number)) => {
                    if is_number {
                        if m.store {
                            kept.insert(m.field.clone(), text);
                            assert(stored_view(kept) =~= stored_view(kept0).insert(
                                m.field@,
                                text@,
                            ));
                        }
                    } else if !text.as_str().is_empty() {
                        self.add_field(m.field.as_str(), doc, text.as_str(), def);
                        if m.store {
                            kept.insert(m.field.clone(), text);
                            assert(stored_view(kept) =~= stored_view(kept0).insert(
                                m.field@,
                                text@,
                            ));
                        }
                    }
                },
                None => {},
            }
            k = k + 1;
        }
        let ghost mid = *self;
        self.stored.insert(doc.to_owned(), kept);
        proof {
            lemma_stored_kept(mid.stored, self.stored, doc@);
            assert(self@.stored =~= before.stored.insert(doc@, stored_view(kept)));
            assert(self@ =~= before.with_document(def@, doc@, *value));
        }
    }

    /// Takes out a document.
    pub fn remove_document_from(&mut self, doc: &str)
        requires
            old(self).wf(),
        ensures
            final(self).wf(),
            final(self)@ == old(self)@.without(doc@),
    {
        let ghost before = *self;
        let n: usize = self.fields.vals.len();
        let mut k: usize = 0;
        while k < n
            invariant
                k <= n,
                before.wf(),
                n == before.fields.vals@.len(),
                self.fields.keys@ == before.fields.keys@,
                self.fields.vals@.len() == n,
                self.stored == before.stored,
                self.total_docs == before.total_docs,
                forall|i: int|
                    0 <= i < k ==> (#[trigger] self.fields.vals@[i]).wf() && self.fields.vals@[i]@
                        == before.fields.vals@[i]@.without(doc@),
                forall|i: int|
                    k <= i < n ==> #[trigger] self.fields.vals@[i] == before.fields.vals@[i],
            decreases n - k,
        {
            self.fields.vals[k].remove_document(doc);
            k = k + 1;
        }
        let ghost mid = *self;
        self.stored.remove(doc);
        proof {
            lemma_stored_kept(before.stored, self.stored, doc@);
            assert(self.fields.wf());
            assert(self@.fields =~= before@.without(doc@).fields) by {
                StrMap::lemma_same_keys(self.fields, before.fields);
            }
            assert(self@.stored =~= before@.stored.remove(doc@));
        }
    }

    /// Counts tokens and documents.
    pub fn recompute_avg_field_len(&mut self)
        requires
            old(self).wf(),
        ensures
            final(self).wf(),
            final(self).is_counted(),
            final(self)@ == old(self)@.settled(),
    {
        let ghost before = *self;
        let n: usize = self.fields.vals.len();
        let mut k: usize = 0;
        while k < n
            invariant
                k <= n,
                before.wf(),
                n == before.fields.vals@.len(),
                self.fields.keys@ == before.fields.keys@,
                self.fields.vals@.len() == n,
                self.stored == before.stored,
                self.total_docs == before.total_docs,
                forall|i: int|
                    0 <= i < k ==> (#[trigger] self.fields.vals@[i]).wf()
                        && self.fields.vals@[i].is_counted() && self.fields.vals@[i]@
                        == before.fields.vals@[i]@,
                forall|i: int|
                    k <= i < n ==> #[trigger] self.fields.vals@[i] == before.fields.vals@[i],
            decreases n - k,
        {
            self.fields.vals[k].recount();
            k = k + 1;
        }
        self.total_docs = self.stored.len();
        proof {
            assert(self@.stored.dom() =~= self.stored@.dom());
            assert(self@.fields =~= before@.fields) by {
                StrMap::lemma_same_keys(self.fields, before.fields);
            }
        }
    }
}

// ---- Laws ----

/// An index whose counts are up to date has as many documents as have stored texts.
pub proof fn law_documents_are_counted(index: InvertedIndex)
    requires
        index.is_counted(),
    ensures
        index.total_docs == index@.stored.len(),
{
}

} // verus!
