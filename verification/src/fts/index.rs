//! The inverted index: which documents hold a term, and where.

use crate::fts::analyzer::{token_views, Token, TokenView};
use crate::strmap::StrMap;
use vstd::prelude::*;
use vstd::string::*;

verus! {

/// The documents that hold a term, with the positions at which they do.
pub open spec fn docs_view(docs: StrMap<Vec<u32>>) -> Map<Seq<char>, Seq<u32>> {
    docs@.map_values(|v: Vec<u32>| v@)
}

/// The index of one field.
pub struct FieldIndex {
    /// For each term the documents that hold it, with the positions at which they do.
    pub postings: StrMap<StrMap<Vec<u32>>>,
    /// How many tokens a document has in this field.
    pub lengths: StrMap<usize>,
    /// The tokens of all documents, and the number of documents, when they were last counted.
    pub average: Option<(u128, usize)>,
}

/// What a [`FieldIndex`] stands for.
#[verifier::ext_equal]
pub struct FieldView {
    pub postings: Map<Seq<char>, Map<Seq<char>, Seq<u32>>>,
    pub lengths: Map<Seq<char>, usize>,
}

/// One more position of a document.
pub open spec fn with_position(docs: Map<Seq<char>, Seq<u32>>, doc: Seq<char>, position: u32) -> Map<
    Seq<char>,
    Seq<u32>,
> {
    let known = if docs.contains_key(doc) {
        docs[doc]
    } else {
        Seq::empty()
    };
    docs.insert(doc, known.push(position))
}

impl FieldView {
    /// The index of a field that no document has.
    pub open spec fn fresh() -> Self {
        FieldView { postings: Map::empty(), lengths: Map::empty() }
    }

    /// The index with one more token of a document.
    pub open spec fn posted(self, doc: Seq<char>, term: Seq<char>, position: u32) -> Self {
        let docs = if self.postings.contains_key(term) {
            self.postings[term]
        } else {
            Map::empty()
        };
        FieldView {
            postings: self.postings.insert(term, with_position(docs, doc, position)),
            ..self
        }
    }

    /// The index with the first `k` tokens of a document.
    pub open spec fn with_tokens(self, doc: Seq<char>, tokens: Seq<TokenView>, k: int) -> Self
        decreases k,
    {
        if k <= 0 {
            self
        } else {
            self.with_tokens(doc, tokens, k - 1).posted(
                doc,
                tokens[k - 1].text,
                tokens[k - 1].position as u32,
            )
        }
    }

    /// The index with a field of a document.
    pub open spec fn with_document(self, doc: Seq<char>, tokens: Seq<TokenView>) -> Self {
        let filled = self.with_tokens(doc, tokens, tokens.len() as int);
        FieldView { lengths: filled.lengths.insert(doc, tokens.len() as usize), ..filled }
    }

    /// Whether a term is found in a document other than `doc`.
    pub open spec fn outlives(self, term: Seq<char>, doc: Seq<char>) -> bool {
        self.postings.contains_key(term) && exists|d: Seq<char>|
            d != doc && #[trigger] self.postings[term].contains_key(d)
    }

    /// The index without a document: terms that no other document holds are dropped.
    pub open spec fn without(self, doc: Seq<char>) -> Self {
        FieldView {
            postings: Map::new(
                |t: Seq<char>| self.outlives(t, doc),
                |t: Seq<char>| self.postings[t].remove(doc),
            ),
            lengths: self.lengths.remove(doc),
        }
    }
}

/// The sum of the first `k` lengths.
pub open spec fn total_of(lengths: Seq<usize>, k: int) -> nat
    decreases k,
{
    if k <= 0 {
        0
    } else {
        total_of(lengths, k - 1) + lengths[k - 1] as nat
    }
}

fn add_position(docs: &mut StrMap<Vec<u32>>, doc: &str, position: u32)
    requires
        old(docs).wf(),
    ensures
        final(docs).wf(),
        docs_view(*final(docs)) == with_position(docs_view(*old(docs)), doc@, position),
{
    let ghost before = *docs;
    match docs.find(doc) {
        Some(i) => {
            docs.vals[i].push(position);
            proof {
                StrMap::lemma_replaced(before, *docs, i as int);
                assert(docs_view(*docs) =~= with_position(docs_view(before), doc@, position));
            }
        },
        None => {
            let mut list: Vec<u32> = Vec::new();
            list.push(position);
            docs.insert(doc.to_owned(), list);
            assert(list@ =~= Seq::<u32>::empty().push(position));
            assert(docs_view(*docs) =~= with_position(docs_view(before), doc@, position));
        },
    }
}

impl View for FieldIndex {
    type V = FieldView;

    open spec fn view(&self) -> FieldView {
        FieldView {
            postings: self.postings@.map_values(|m: StrMap<Vec<u32>>| docs_view(m)),
            lengths: self.lengths@,
        }
    }
}

impl FieldIndex {
    /// No key occurs twice, at any level.
    pub open spec fn wf(self) -> bool {
        &&& self.postings.wf()
        &&& forall|i: int|
            0 <= i < self.postings.vals@.len() ==> (#[trigger] self.postings.vals@[i]).wf()
        &&& self.lengths.wf()
    }

    /// The index of a field that no document has.
    pub fn new() -> (r: FieldIndex)
        ensures
            r.wf(),
            r@ == FieldView::fresh(),
    {
        let r = FieldIndex { postings: StrMap::new(), lengths: StrMap::new(), average: None };
        assert(r@ =~= FieldView::fresh());
        r
    }

    fn post(&mut self, doc: &str, term: &str, position: u32)
        requires
            old(self).wf(),
        ensures
            final(self).wf(),
            final(self)@ == old(self)@.posted(doc@, term@, position),
    {
        let ghost before = *self;
        match self.postings.find(term) {
            Some(i) => {
                add_position(&mut self.postings.vals[i], doc, position);
                proof {
                    StrMap::lemma_replaced(before.postings, self.postings, i as int);
                    assert(self@ =~= before@.posted(doc@, term@, position));
                }
            },
            None => {
                let mut docs: StrMap<Vec<u32>> = StrMap::new();
                assert(docs_view(docs) =~= Map::<Seq<char>, Seq<u32>>::empty());
                add_position(&mut docs, doc, position);
                self.postings.insert(term.to_owned(), docs);
                proof {
                    assert(self@ =~= before@.posted(doc@, term@, position));
                    assert forall|i: int| 0 <= i < self.postings.vals@.len() implies (
                    #[trigger] self.postings.vals@[i]).wf() by {
                        self.postings.lemma_place(i);
                        let k = self.postings.keys@[i]@;
                        if k != term@ {
                            let p = before.postings.place(k);
                            assert(before.postings@.contains_key(k));
                            assert(before.postings.at(k, p));
                            assert(before.postings.vals@[p].wf());
                        }
                    }
                }
            },
        }
    }

    /// Takes in a field of a document.
    pub fn add_document(&mut self, doc: &str, tokens: &Vec<Token>)
        requires
            old(self).wf(),
        ensures
            final(self).wf(),
            final(self)@ == old(self)@.with_document(doc@, token_views(tokens@)),
    {
        let ghost before = self@;
        let ghost list = token_views(tokens@);
        let mut k: usize = 0;
        while k < tokens.len()
            invariant
                k <= tokens@.len(),
                list == token_views(tokens@),
                self.wf(),
                self@ == before.with_tokens(doc@, list, k as int),
            decreases tokens@.len() - k,
        {
            self.post(doc, tokens[k].text.as_str(), tokens[k].position);
            assert(list[k as int] == tokens@[k as int]@);
            k = k + 1;
        }
        self.lengths.insert(doc.to_owned(), tokens.len());
        assert(self@ =~= before.with_document(doc@, list));
    }

    /// Takes out a document.
    pub fn remove_document(&mut self, doc: &str)
        requires
            old(self).wf(),
        ensures
            final(self).wf(),
            final(self)@ == old(self)@.without(doc@),
    {
        let ghost before = *self;
        let ghost pre = self.postings;
        let mut kept: StrMap<StrMap<Vec<u32>>> = StrMap::new();
        let mut k: usize = 0;
        let total: usize = self.postings.keys.len();
        while k < total
            invariant
                k <= total,
                total == pre.keys@.len(),
                before.wf(),
                before.postings == pre,
                before.lengths == self.lengths,
                before.average == self.average,
                self.postings.keys@ == pre.keys@,
                self.postings.vals@.len() == pre.vals@.len(),
                forall|j: int| k <= j < total ==> self.postings.vals@[j] == pre.vals@[j],
                kept.wf(),
                forall|j: int| 0 <= j < kept.vals@.len() ==> (#[trigger] kept.vals@[j]).wf(),
                forall|t: Seq<char>| #[trigger]
                    kept@.contains_key(t) ==> exists|j: int|
                        0 <= j < k && pre.at(t, j) && before@.outlives(t, doc@) && docs_view(kept@[t])
                            == before@.postings[t].remove(doc@),
                forall|j: int|
                    0 <= j < k && before@.outlives(pre.keys@[j]@, doc@) ==> kept@.contains_key(
                        #[trigger] pre.keys@[j]@,
                    ),
            decreases total - k,
        {
            let mut docs: StrMap<Vec<u32>> = StrMap::new();
            std::mem::swap(&mut docs, &mut self.postings.vals[k]);
            let ghost docs0 = docs;
            let ghost term = pre.keys@[k as int]@;
            let ghost kept0 = kept;
            proof {
                pre.lemma_place(k as int);
                assert(docs == pre.vals@[k as int]);
                assert(before@.postings[term] == docs_view(docs0));
            }
            docs.remove(doc);
            assert(docs_view(docs) =~= docs_view(docs0).remove(doc@));
            let left: usize = docs.len();
            if left > 0 {
                proof {
                    docs.lemma_place(0);
                    let d = docs.keys@[0]@;
                    assert(d != doc@);
                    assert(before@.postings[term].contains_key(d));
                    assert(before@.outlives(term, doc@));
                }
                kept.insert(self.postings.keys[k].clone(), docs);
                proof {
                    assert forall|t: Seq<char>| #[trigger] kept@.contains_key(t) implies exists|j: int|
                        0 <= j < k + 1 && pre.at(t, j) && before@.outlives(t, doc@) && docs_view(
                            kept@[t],
                        ) == before@.postings[t].remove(doc@) by {
                        if t == term {
                            assert(pre.at(t, k as int));
                        } else {
                            assert(kept0@.contains_key(t));
                            let j = choose|j: int|
                                0 <= j < k && pre.at(t, j) && before@.outlives(t, doc@) && docs_view(
                                    kept0@[t],
                                ) == before@.postings[t].remove(doc@);
                            assert(pre.at(t, j));
                        }
                    }
                    assert forall|j: int| 0 <= j < kept.vals@.len() implies (
                    #[trigger] kept.vals@[j]).wf() by {
                        kept.lemma_place(j);
                        let t = kept.keys@[j]@;
                        if t != term {
                            assert(kept0@.contains_key(t));
                            let p = kept0.place(t);
                            assert(kept0.at(t, p));
                            assert(kept0.vals@[p].wf());
                        }
                    }
                }
            } else {
                proof {
                    if before@.outlives(term, doc@) {
                        let d = choose|d: Seq<char>|
                            d != doc@ && #[trigger] before@.postings[term].contains_key(d);
                        assert(docs_view(docs).contains_key(d));
                        assert(docs@.contains_key(d));
                        assert(docs.at(d, docs.place(d)));
                    }
                    assert forall|t: Seq<char>| #[trigger] kept@.contains_key(t) implies exists|j: int|
                        0 <= j < k + 1 && pre.at(t, j) && before@.outlives(t, doc@) && docs_view(
                            kept@[t],
                        ) == before@.postings[t].remove(doc@) by {
                        let j = choose|j: int|
                            0 <= j < k && pre.at(t, j) && before@.outlives(t, doc@) && docs_view(
                                kept@[t],
                            ) == before@.postings[t].remove(doc@);
                        assert(pre.at(t, j));
                    }
                }
            }
            k = k + 1;
        }
        self.postings = kept;
        self.lengths.remove(doc);
        proof {
            assert(self@.postings =~= before@.without(doc@).postings) by {
                assert forall|t: Seq<char>| before@.outlives(t, doc@) implies kept@.contains_key(
                    t,
                ) by {
                    let p = pre.place(t);
                    assert(pre@.contains_key(t));
                    assert(pre.at(t, p));
                    assert(pre.keys@[p]@ == t);
                }
            }
            assert(self@ =~= before@.without(doc@));
        }
    }

    /// Counts the tokens of all documents, if there are any.
    pub fn recount(&mut self)
        requires
            old(self).wf(),
        ensures
            final(self).wf(),
            final(self).postings == old(self).postings,
            final(self).lengths == old(self).lengths,
            final(self)@ == old(self)@,
            final(self).is_counted(),
    {
        let mut total: u128 = 0;
        let mut k: usize = 0;
        let n: usize = self.lengths.vals.len();
        while k < n
            invariant
                k <= n,
                n == self.lengths.vals@.len(),
                *self == *old(self),
                total == total_of(self.lengths.vals@, k as int),
                total <= k * usize::MAX,
            decreases n - k,
        {
            assert(k * usize::MAX + usize::MAX == (k + 1) * usize::MAX) by (nonlinear_arith);
            assert((k + 1) * usize::MAX <= usize::MAX * usize::MAX) by (nonlinear_arith)
                requires
                    k + 1 <= usize::MAX,
            ;
            assert(usize::MAX * usize::MAX <= u128::MAX) by (nonlinear_arith)
                requires
                    usize::MAX <= 0xffff_ffff_ffff_ffff,
            ;
            total = total + self.lengths.vals[k] as u128;
            k = k + 1;
        }
        if n > 0 {
            self.average = Some((total, n));
        }
    }

    /// Whether the count of tokens and documents is up to date. It matters only where there are
    /// documents.
    pub open spec fn is_counted(self) -> bool {
        let n = self.lengths.vals@.len();
        n > 0 ==> self.average == Some(
            (total_of(self.lengths.vals@, n as int) as u128, n as usize),
        )
    }
}

} // verus!
