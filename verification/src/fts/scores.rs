//! What a search found: for each document, what its score is made of.

use crate::strmap::StrMap;
use vstd::prelude::*;
use vstd::string::*;

verus! {

/// The counts from which the weight of a term in a document is computed.
#[derive(Clone, Copy, Debug, PartialEq, Eq)]
pub struct TermStat {
    /// How often the term occurs in the document.
    pub tf: usize,
    /// In how many documents the term occurs.
    pub df: usize,
    /// How many tokens the field of the document has.
    pub doc_len: Option<usize>,
    /// The tokens of all documents, and the number of documents that have the field.
    pub average: Option<(u128, usize)>,
    /// The number of documents.
    pub total_docs: usize,
}

/// One of the numbers that add up to a score.
#[derive(Clone, Copy, Debug, PartialEq, Eq)]
pub enum ScorePart {
    /// The number one.
    One,
    /// The weight of a term.
    Term(TermStat),
    /// The weight of a term in a phrase, half as much again.
    PhraseTerm(TermStat),
}

/// For each document that was found, what its score is made of.
pub struct Scores {
    pub map: StrMap<Vec<ScorePart>>,
}

/// How two searches are put together.
#[derive(Clone, Copy, Debug, PartialEq, Eq, Structural)]
pub enum Combine {
    /// What both found.
    Both,
    /// What the first found; the second adds to the scores.
    Boost,
    /// What only the first found.
    Without,
}

/// The score of a document in two searches put together.
pub open spec fn combined(how: Combine, a: Seq<ScorePart>, b: Seq<ScorePart>) -> Seq<ScorePart> {
    match how {
        Combine::Both => if a.len() > 0 && b.len() > 0 {
            a + b
        } else {
            Seq::empty()
        },
        Combine::Boost => if a.len() > 0 {
            a + b
        } else {
            Seq::empty()
        },
        Combine::Without => if b.len() > 0 {
            Seq::empty()
        } else {
            a
        },
    }
}

impl Scores {
    /// What the score of a document is made of: of nothing, if it was not found.
    pub open spec fn of(self, doc: Seq<char>) -> Seq<ScorePart> {
        if self.map@.contains_key(doc) {
            self.map@[doc]@
        } else {
            Seq::empty()
        }
    }

    /// No document occurs twice, and each has a score.
    pub open spec fn wf(self) -> bool {
        &&& self.map.wf()
        &&& forall|d: Seq<char>| #[trigger] self.map@.contains_key(d) ==> self.map@[d]@.len() > 0
    }

    /// What finds nothing.
    pub fn new() -> (r: Scores)
        ensures
            r.wf(),
            forall|d: Seq<char>| #[trigger] r.of(d) == Seq::<ScorePart>::empty(),
    {
        Scores { map: StrMap::new() }
    }

    /// Adds to the score of a document.
    pub fn push_part(&mut self, doc: &str, part: ScorePart)
        requires
            old(self).wf(),
        ensures
            final(self).wf(),
            forall|d: Seq<char>| #[trigger]
                final(self).of(d) == if d == doc@ {
                    old(self).of(d).push(part)
                } else {
                    old(self).of(d)
                },
    {
        let ghost before = *self;
        match self.map.find(doc) {
            Some(i) => {
                self.map.vals[i].push(part);
                proof {
                    StrMap::lemma_replaced(before.map, self.map, i as int);
                }
            },
            None => {
                let mut list: Vec<ScorePart> = Vec::new();
                list.push(part);
                self.map.insert(doc.to_owned(), list);
            },
        }
        proof {
            assert forall|d: Seq<char>| #[trigger] self.of(d) == if d == doc@ {
                before.of(d).push(part)
            } else {
                before.of(d)
            } by {
                assert(self.of(d) =~= if d == doc@ {
                    before.of(d).push(part)
                } else {
                    before.of(d)
                });
            }
        }
    }

    fn push_parts(&mut self, doc: &str, parts: &Vec<ScorePart>)
        requires
            old(self).wf(),
        ensures
            final(self).wf(),
            forall|d: Seq<char>| #[trigger]
                final(self).of(d) == if d == doc@ {
                    old(self).of(d) + parts@
                } else {
                    old(self).of(d)
                },
    {
        let ghost before = *self;
        let mut k: usize = 0;
        assert(before.of(doc@) + parts@.take(0) =~= before.of(doc@));
        while k < parts.len()
            invariant
                k <= parts@.len(),
                self.wf(),
                self.of(doc@) == before.of(doc@) + parts@.take(k as int),
                forall|d: Seq<char>| d != doc@ ==> #[trigger] self.of(d) == before.of(d),
            decreases parts@.len() - k,
        {
            self.push_part(doc, parts[k]);
            k = k + 1;
            assert(self.of(doc@) =~= before.of(doc@) + parts@.take(k as int));
        }
        assert(parts@.take(k as int) =~= parts@);
    }

    /// Adds what another search found.
    pub fn join(&mut self, other: &Scores)
        requires
            old(self).wf(),
            other.wf(),
        ensures
            final(self).wf(),
            forall|d: Seq<char>| #[trigger] final(self).of(d) == old(self).of(d) + other.of(d),
    {
        let ghost before = *self;
        let mut k: usize = 0;
        let n: usize = other.map.keys.len();
        while k < n
            invariant
                k <= n,
                n == other.map.keys@.len(),
                other.wf(),
                self.wf(),
                forall|d: Seq<char>, j: int|
                    #![trigger self.of(d), other.map.at(d, j)]
                    j < k && other.map.at(d, j) ==> self.of(d) == before.of(d) + other.of(d),
                forall|d: Seq<char>|
                    (forall|j: int| #[trigger] other.map.at(d, j) ==> j >= k) ==> #[trigger] self.of(
                        d,
                    ) == before.of(d),
            decreases n - k,
        {
            let ghost mid = *self;
            let ghost doc = other.map.keys@[k as int]@;
            proof {
                other.map.lemma_place(k as int);
                assert forall|j: int| #[trigger] other.map.at(doc, j) implies j == k by {
                    other.map.lemma_place(j);
                }
                assert(mid.of(doc) == before.of(doc));
            }
            self.push_parts(other.map.keys[k].as_str(), &other.map.vals[k]);
            proof {
                assert forall|d: Seq<char>, j: int|
                    #![trigger self.of(d), other.map.at(d, j)]
                    j < k + 1 && other.map.at(d, j) implies self.of(d) == before.of(d) + other.of(
                    d,
                ) by {
                    if d != doc {
                        assert(mid.of(d) == before.of(d) + other.of(d));
                    }
                }
                assert forall|d: Seq<char>|
                    (forall|j: int| #[trigger] other.map.at(d, j) ==> j >= k + 1) implies
                    #[trigger] self.of(d) == before.of(d) by {
                    assert(other.map.at(doc, k as int));
                    assert(d != doc);
                    assert(mid.of(d) == before.of(d));
                }
            }
            k = k + 1;
        }
        proof {
            assert forall|d: Seq<char>| #[trigger] self.of(d) == before.of(d) + other.of(d) by {
                if other.map@.contains_key(d) {
                    let j = other.map.place(d);
                    assert(other.map.at(d, j));
                } else {
                    assert forall|j: int| #[trigger] other.map.at(d, j) implies j >= n by {
                        other.map.lemma_place(j);
                    }
                    assert(before.of(d) + other.of(d) =~= before.of(d));
                }
            }
        }
    }

    /// Puts this search together with another.
    pub fn combine(&self, how: Combine, other: &Scores) -> (r: Scores)
        requires
            self.wf(),
            other.wf(),
        ensures
            r.wf(),
            forall|d: Seq<char>| #[trigger] r.of(d) == combined(how, self.of(d), other.of(d)),
    {
        let mut out = Scores::new();
        let mut k: usize = 0;
        let n: usize = self.map.keys.len();
        while k < n
            invariant
                k <= n,
                n == self.map.keys@.len(),
                self.wf(),
                other.wf(),
                out.wf(),
                forall|d: Seq<char>, j: int|
                    #![trigger out.of(d), self.map.at(d, j)]
                    j < k && self.map.at(d, j) ==> out.of(d) == combined(
                        how,
                        self.of(d),
                        other.of(d),
                    ),
                forall|d: Seq<char>|
                    (forall|j: int| #[trigger] self.map.at(d, j) ==> j >= k) ==> #[trigger] out.of(
                        d,
                    ) == Seq::<ScorePart>::empty(),
            decreases n - k,
        {
            let ghost mid = out;
            let ghost doc = self.map.keys@[k as int]@;
            proof {
                self.map.lemma_place(k as int);
                assert forall|j: int| #[trigger] self.map.at(doc, j) implies j == k by {
                    self.map.lemma_place(j);
                }
                assert(mid.of(doc) == Seq::<ScorePart>::empty());
                assert(self.of(doc) == self.map.vals@[k as int]@);
                assert(self.of(doc).len() > 0);
            }
            let key = self.map.keys[k].as_str();
            match other.map.find(key) {
                Some(i) => {
                    if how != Combine::Without {
                        out.push_parts(key, &self.map.vals[k]);
                        out.push_parts(key, &other.map.vals[i]);
                    }
                },
                None => {
                    if how != Combine::Both {
                        out.push_parts(key, &self.map.vals[k]);
                    }
                },
            }
            proof {
                assert(out.of(doc) =~= combined(how, self.of(doc), other.of(doc)));
                assert forall|d: Seq<char>, j: int|
                    #![trigger out.of(d), self.map.at(d, j)]
                    j < k + 1 && self.map.at(d, j) implies out.of(d) == combined(
                    how,
                    self.of(d),
                    other.of(d),
                ) by {
                    if d != doc {
                        assert(mid.of(d) == combined(how, self.of(d), other.of(d)));
                    }
                }
                assert forall|d: Seq<char>|
                    (forall|j: int| #[trigger] self.map.at(d, j) ==> j >= k + 1) implies
                    #[trigger] out.of(d) == Seq::<ScorePart>::empty() by {
                    assert(self.map.at(doc, k as int));
                    assert(d != doc);
                    assert(mid.of(d) == Seq::<ScorePart>::empty());
                }
            }
            k = k + 1;
        }
        proof {
            assert forall|d: Seq<char>| #[trigger] out.of(d) == combined(
                how,
                self.of(d),
                other.of(d),
            ) by {
                if self.map@.contains_key(d) {
                    let j = self.map.place(d);
                    assert(self.map.at(d, j));
                } else {
                    assert forall|j: int| #[trigger] self.map.at(d, j) implies j >= n by {
                        self.map.lemma_place(j);
                    }
                    assert(combined(how, self.of(d), other.of(d)) =~= Seq::<ScorePart>::empty());
                }
            }
        }
        out
    }
}

// ---- Laws ----

/// What was found by both searches counts for both, what has to be found by one alone counts only
/// there, and what was not to be found is left out.
pub proof fn law_searches_are_put_together(a: Seq<ScorePart>, b: Seq<ScorePart>)
    ensures
        combined(Combine::Both, a, b).len() > 0 <==> a.len() > 0 && b.len() > 0,
        a.len() > 0 && b.len() > 0 ==> combined(Combine::Both, a, b) == a + b,
        combined(Combine::Boost, a, b).len() > 0 <==> a.len() > 0,
        a.len() > 0 ==> combined(Combine::Boost, a, b) == a + b,
        combined(Combine::Without, a, b).len() > 0 <==> a.len() > 0 && b.len() == 0,
        b.len() == 0 ==> combined(Combine::Without, a, b) == a,
{
}

/// A document has the score under its name, and none where it was not found.
pub proof fn law_scores_stand_under_their_document(scores: Scores, doc: Seq<char>)
    ensures
        scores.map@.contains_key(doc) ==> scores.of(doc) == scores.map@[doc]@,
        !scores.map@.contains_key(doc) ==> scores.of(doc).len() == 0,
{
}

} // verus!
