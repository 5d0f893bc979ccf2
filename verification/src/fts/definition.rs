//! What a search index covers and how its fields are analysed.

use crate::fts::analyzer::{AnalyzerConfig, AnalyzerView};
use crate::fts::json::{copy_mappings, mapping_views, FtsFieldMapping, MappingView};
use crate::text::same_text;
use vstd::prelude::*;
use vstd::string::*;

verus! {

/// Whether an index can be searched.
#[derive(Clone, Copy, Debug, PartialEq, Eq, Structural)]
pub enum FtsIndexState {
    Building,
    Online,
    Offline,
}

impl FtsIndexState {
    pub open spec fn name(self) -> Seq<char> {
        match self {
            FtsIndexState::Building => "Building"@,
            FtsIndexState::Online => "Online"@,
            FtsIndexState::Offline => "Offline"@,
        }
    }

    pub fn to_text(self) -> (r: String)
        ensures
            r@ == self.name(),
    {
        match self {
            FtsIndexState::Building => "Building".to_owned(),
            FtsIndexState::Online => "Online".to_owned(),
            FtsIndexState::Offline => "Offline".to_owned(),
        }
    }
}

/// What a search index covers.
#[derive(Debug)]
pub struct FtsIndexDefinition {
    pub name: String,
    pub bucket: String,
    pub scope: String,
    pub collection: String,
    /// The fields to index; if there are none, all that hold text.
    pub fields: Vec<FtsFieldMapping>,
    pub analyzer: AnalyzerConfig,
    pub state: FtsIndexState,
    pub created_at: String,
    pub doc_count: usize,
    pub term_count: usize,
}

/// What a [`FtsIndexDefinition`] stands for.
#[verifier::ext_equal]
pub struct DefinitionView {
    pub name: Seq<char>,
    pub bucket: Seq<char>,
    pub scope: Seq<char>,
    pub collection: Seq<char>,
    pub fields: Seq<MappingView>,
    pub analyzer: AnalyzerView,
    pub state: FtsIndexState,
    pub created_at: Seq<char>,
    pub doc_count: usize,
    pub term_count: usize,
}

/// The analyzer of a field, from mapping `i` on: the first mapping of the field that names a
/// tokenizer decides.
pub open spec fn analyzer_from(
    fields: Seq<MappingView>,
    standard: AnalyzerView,
    field: Seq<char>,
    i: int,
) -> AnalyzerView
    decreases fields.len() - i,
{
    if i < 0 || i >= fields.len() {
        standard
    } else if fields[i].field == field && fields[i].analyzer is Some {
        AnalyzerView { tokenizer: fields[i].analyzer->0, ..standard }
    } else {
        analyzer_from(fields, standard, field, i + 1)
    }
}

impl DefinitionView {
    /// The analyzer of a field.
    pub open spec fn analyzer_of(self, field: Seq<char>) -> AnalyzerView {
        analyzer_from(self.fields, self.analyzer, field, 0)
    }
}

impl View for FtsIndexDefinition {
    type V = DefinitionView;

    open spec fn view(&self) -> DefinitionView {
        DefinitionView {
            name: self.name@,
            bucket: self.bucket@,
            scope: self.scope@,
            collection: self.collection@,
            fields: mapping_views(self.fields@),
            analyzer: self.analyzer@,
            state: self.state,
            created_at: self.created_at@,
            doc_count: self.doc_count,
            term_count: self.term_count,
        }
    }
}

impl FtsIndexDefinition {
    /// A copy.
    pub fn copy(&self) -> (r: FtsIndexDefinition)
        ensures
            r@ == self@,
    {
        FtsIndexDefinition {
            name: self.name.clone(),
            bucket: self.bucket.clone(),
            scope: self.scope.clone(),
            collection: self.collection.clone(),
            fields: copy_mappings(&self.fields),
            analyzer: self.analyzer.copy(),
            state: self.state,
            created_at: self.created_at.clone(),
            doc_count: self.doc_count,
            term_count: self.term_count,
        }
    }

    /// The analyzer of a field.
    pub fn get_field_analyzer(&self, field: &str) -> (r: AnalyzerConfig)
        ensures
            r@ == self@.analyzer_of(field@),
    {
        let ghost views = mapping_views(self.fields@);
        let mut i: usize = 0;
        while i < self.fields.len()
            invariant
                i <= self.fields@.len(),
                views == mapping_views(self.fields@),
                self@.analyzer_of(field@) == analyzer_from(
                    views,
                    self.analyzer@,
                    field@,
                    i as int,
                ),
            decreases self.fields@.len() - i,
        {
            assert(views[i as int] == self.fields@[i as int]@);
            if same_text(self.fields[i].field.as_str(), field) {
                match &self.fields[i].analyzer {
                    Some(name) => {
                        let mut config = self.analyzer.copy();
                        config.tokenizer = name.clone();
                        return config;
                    },
                    None => {},
                }
            }
            i = i + 1;
        }
        self.analyzer.copy()
    }
}

// ---- Laws ----

/// The analyzer of a field is that of the index, with the tokenizer that the first mapping of the
/// field names, if one does.
pub proof fn law_fields_choose_their_tokenizer(d: DefinitionView, field: Seq<char>, p: int)
    ensures
        (forall|i: int|
            0 <= i < d.fields.len() ==> (#[trigger] d.fields[i]).field != field
                || d.fields[i].analyzer is None) ==> d.analyzer_of(field) == d.analyzer,
        0 <= p < d.fields.len() && d.fields[p].field == field && d.fields[p].analyzer is Some && (
        forall|i: int|
            0 <= i < p ==> (#[trigger] d.fields[i]).field != field || d.fields[i].analyzer is None)
            ==> d.analyzer_of(field) == (AnalyzerView {
            tokenizer: d.fields[p].analyzer->0,
            ..d.analyzer
        }),
{
    if forall|i: int|
        0 <= i < d.fields.len() ==> (#[trigger] d.fields[i]).field != field
            || d.fields[i].analyzer is None {
        lemma_no_mapping(d.fields, d.analyzer, field, 0);
    }
    if 0 <= p < d.fields.len() && d.fields[p].field == field && d.fields[p].analyzer is Some && (
    forall|i: int|
        0 <= i < p ==> (#[trigger] d.fields[i]).field != field || d.fields[i].analyzer is None) {
        lemma_first_mapping(d.fields, d.analyzer, field, 0, p);
    }
}

proof fn lemma_no_mapping(fields: Seq<MappingView>, standard: AnalyzerView, field: Seq<char>, i: int)
    requires
        0 <= i <= fields.len(),
        forall|k: int|
            i <= k < fields.len() ==> (#[trigger] fields[k]).field != field
                || fields[k].analyzer is None,
    ensures
        analyzer_from(fields, standard, field, i) == standard,
    decreases fields.len() - i,
{
    if i < fields.len() {
        assert(fields[i].field != field || fields[i].analyzer is None);
        lemma_no_mapping(fields, standard, field, i + 1);
    }
}

proof fn lemma_first_mapping(
    fields: Seq<MappingView>,
    standard: AnalyzerView,
    field: Seq<char>,
    i: int,
    p: int,
)
    requires
        0 <= i <= p < fields.len(),
        fields[p].field == field,
        fields[p].analyzer is Some,
        forall|k: int|
            i <= k < p ==> (#[trigger] fields[k]).field != field || fields[k].analyzer is None,
    ensures
        analyzer_from(fields, standard, field, i) == (AnalyzerView {
            tokenizer: fields[p].analyzer->0,
            ..standard
        }),
    decreases p - i,
{
    if i < p {
        assert(fields[i].field != field || fields[i].analyzer is None);
        lemma_first_mapping(fields, standard, field, i + 1, p);
    }
}

} // verus!
