//! A map from texts to values, kept as a list in the order of insertion.

use crate::text::same_text;
use vstd::prelude::*;

verus! {

/// A map keyed by text.
#[verifier::reject_recursive_types(V)]
pub struct StrMap<V> {
    pub keys: Vec<String>,
    pub vals: Vec<V>,
}

impl<V> View for StrMap<V> {
    type V = Map<Seq<char>, V>;

    /// The map that the lists stand for.
    open spec fn view(&self) -> Map<Seq<char>, V> {
        Map::new(|k: Seq<char>| exists|i: int| self.at(k, i), |k: Seq<char>| self.vals@[self.place(k)])
    }
}

impl<V> StrMap<V> {
    /// Whether `k` stands at place `i`.
    pub open spec fn at(self, k: Seq<char>, i: int) -> bool {
        0 <= i < self.keys@.len() && self.keys@[i]@ == k
    }

    /// Every key has a value, and no key occurs twice.
    pub open spec fn wf(self) -> bool {
        &&& self.keys@.len() == self.vals@.len()
        &&& forall|i: int, j: int|
            0 <= i < j < self.keys@.len() ==> #[trigger] self.keys@[i]@ != #[trigger] self.keys@[j]@
    }

    /// The place of a key.
    pub open spec fn place(self, k: Seq<char>) -> int {
        choose|i: int| self.at(k, i)
    }

    /// What the map says of the key at place `i`.
    pub proof fn lemma_place(self, i: int)
        requires
            self.wf(),
            0 <= i < self.keys@.len(),
        ensures
            self@.contains_key(self.keys@[i]@),
            self@[self.keys@[i]@] == self.vals@[i],
            self.place(self.keys@[i]@) == i,
    {
        let k = self.keys@[i]@;
        assert(self.at(k, i));
        let p = self.place(k);
        assert(self.at(k, p));
        if p < i {
            assert(self.keys@[p]@ != self.keys@[i]@);
        }
        if i < p {
            assert(self.keys@[i]@ != self.keys@[p]@);
        }
    }

    /// A map that differs from another in the value at place `i`.
    pub proof fn lemma_replaced(before: Self, after: Self, i: int)
        requires
            before.wf(),
            0 <= i < before.keys@.len(),
            after.keys@ == before.keys@,
            after.vals@ == before.vals@.update(i, after.vals@[i]),
        ensures
            after.wf(),
            after@ == before@.insert(before.keys@[i]@, after.vals@[i]),
    {
        let k = before.keys@[i]@;
        let v = after.vals@[i];
        assert(after@ =~= before@.insert(k, v)) by {
            before.lemma_place(i);
            assert forall|x: Seq<char>| after@.contains_key(x) == before@.insert(k, v).contains_key(
                x,
            ) by {
                assert(forall|j: int| after.at(x, j) == before.at(x, j));
            }
            assert forall|x: Seq<char>| after@.contains_key(x) implies after@[x] == before@.insert(
                k,
                v,
            )[x] by {
                let j = choose|j: int| after.at(x, j);
                assert(before.at(x, j));
                after.lemma_place(j);
                before.lemma_place(j);
            }
        }
    }

    /// Two maps with the same list of keys have the same keys, each at the same place.
    pub proof fn lemma_same_keys(a: Self, b: Self)
        requires
            a.wf(),
            b.wf(),
            a.keys@ == b.keys@,
        ensures
            a@.dom() == b@.dom(),
            forall|k: Seq<char>| #[trigger]
                a@.contains_key(k) ==> 0 <= a.place(k) < a.keys@.len() && a@[k]
                    == a.vals@[a.place(k)] && b@[k] == b.vals@[a.place(k)],
    {
        assert forall|k: Seq<char>| a@.contains_key(k) == b@.contains_key(k) by {
            if a@.contains_key(k) {
                let i = choose|i: int| a.at(k, i);
                assert(b.at(k, i));
            }
            if b@.contains_key(k) {
                let i = choose|i: int| b.at(k, i);
                assert(a.at(k, i));
            }
        }
        assert(a@.dom() =~= b@.dom());
        assert forall|k: Seq<char>| #[trigger] a@.contains_key(k) implies 0 <= a.place(k)
            < a.keys@.len() && a@[k] == a.vals@[a.place(k)] && b@[k] == b.vals@[a.place(k)] by {
            let i = choose|i: int| a.at(k, i);
            a.lemma_place(i);
            b.lemma_place(i);
        }
    }

    /// The keys of the map are those of the list, and there are as many.
    pub proof fn lemma_len(self)
        requires
            self.wf(),
        ensures
            self@.dom().finite(),
            self@.len() == self.keys@.len(),
        decreases self.keys@.len(),
    {
        let names = Seq::new(self.keys@.len(), |i: int| self.keys@[i]@);
        assert(names.no_duplicates()) by {
            assert forall|i: int, j: int|
                0 <= i < names.len() && 0 <= j < names.len() && i != j implies names[i]
                != names[j] by {
                if i < j {
                    assert(self.keys@[i]@ != self.keys@[j]@);
                } else {
                    assert(self.keys@[j]@ != self.keys@[i]@);
                }
            }
        }
        names.unique_seq_to_set();
        assert(self@.dom() =~= names.to_set()) by {
            assert forall|k: Seq<char>| self@.dom().contains(k) implies names.to_set().contains(
                k,
            ) by {
                let i = choose|i: int| self.at(k, i);
                assert(names[i] == k);
            }
            assert forall|k: Seq<char>| names.to_set().contains(k) implies self@.dom().contains(
                k,
            ) by {
                let i = choose|i: int| 0 <= i < names.len() && names[i] == k;
                assert(self.at(k, i));
            }
        }
    }

    /// The empty map.
    pub fn new() -> (r: Self)
        ensures
            r.wf(),
            r@ == Map::<Seq<char>, V>::empty(),
            r.keys@.len() == 0,
    {
        let r = StrMap { keys: Vec::new(), vals: Vec::new() };
        assert(r@ =~= Map::<Seq<char>, V>::empty());
        r
    }

    /// The number of keys.
    pub fn len(&self) -> (r: usize)
        requires
            self.wf(),
        ensures
            r == self@.len(),
            r == self.keys@.len(),
            self@.dom().finite(),
    {
        proof {
            self.lemma_len();
        }
        self.keys.len()
    }

    /// The place of a key, if the map has it.
    pub fn find(&self, k: &str) -> (r: Option<usize>)
        requires
            self.wf(),
        ensures
            match r {
                Some(i) => i < self.keys@.len() && self.keys@[i as int]@ == k@ && self@.contains_key(k@)
                    && self@[k@] == self.vals@[i as int],
                None => !self@.contains_key(k@),
            },
    {
        let mut i: usize = 0;
        while i < self.keys.len()
            invariant
                self.wf(),
                i <= self.keys.len(),
                forall|j: int| 0 <= j < i ==> self.keys@[j]@ != k@,
            decreases self.keys.len() - i,
        {
            if same_text(self.keys[i].as_str(), k) {
                proof {
                    self.lemma_place(i as int);
                }
                return Some(i);
            }
            i = i + 1;
        }
        None
    }

    /// Whether the map has a key.
    pub fn contains_key(&self, k: &str) -> (r: bool)
        requires
            self.wf(),
        ensures
            r == self@.contains_key(k@),
    {
        self.find(k).is_some()
    }

    /// The value of a key.
    pub fn get(&self, k: &str) -> (r: Option<&V>)
        requires
            self.wf(),
        ensures
            match r {
                Some(v) => self@.contains_key(k@) && *v == self@[k@],
                None => !self@.contains_key(k@),
            },
    {
        match self.find(k) {
            Some(i) => Some(&self.vals[i]),
            None => None,
        }
    }

    /// Gives a key a value, in place of the one it had.
    pub fn insert(&mut self, k: String, v: V)
        requires
            old(self).wf(),
        ensures
            final(self).wf(),
            final(self)@ == old(self)@.insert(k@, v),
    {
        let ghost before = *self;
        match self.find(k.as_str()) {
            Some(i) => {
                self.vals.set(i, v);
                proof {
                    let after = *self;
                    assert(after@ =~= before@.insert(k@, v)) by {
                        assert forall|x: Seq<char>| after@.contains_key(x) == before@.insert(
                            k@,
                            v,
                        ).contains_key(x) by {
                            assert(forall|j: int| after.at(x, j) == before.at(x, j));
                        }
                        assert forall|x: Seq<char>| after@.contains_key(x) implies after@[x]
                            == before@.insert(k@, v)[x] by {
                            let j = choose|j: int| after.at(x, j);
                            assert(before.at(x, j));
                            after.lemma_place(j);
                            before.lemma_place(j);
                            before.lemma_place(i as int);
                        }
                    }
                }
            },
            None => {
                self.keys.push(k);
                self.vals.push(v);
                proof {
                    let after = *self;
                    let n = before.keys@.len() as int;
                    assert(after.keys@[n]@ == k@);
                    assert forall|i: int, j: int| 0 <= i < j < after.keys@.len() implies (
                    #[trigger] after.keys@[i]@) != (#[trigger] after.keys@[j]@) by {
                        if j == n {
                            assert(before.at(before.keys@[i]@, i));
                        } else {
                            assert(before.keys@[i]@ != before.keys@[j]@);
                        }
                    }
                    assert(after@ =~= before@.insert(k@, v)) by {
                        assert forall|x: Seq<char>| after@.contains_key(x) == before@.insert(
                            k@,
                            v,
                        ).contains_key(x) by {
                            if after@.contains_key(x) {
                                let j = choose|j: int| after.at(x, j);
                                if j < n {
                                    assert(before.at(x, j));
                                }
                            }
                            if before@.contains_key(x) {
                                let j = choose|j: int| before.at(x, j);
                                assert(after.at(x, j));
                            }
                            if x == k@ {
                                assert(after.at(x, n));
                            }
                        }
                        assert forall|x: Seq<char>| after@.contains_key(x) implies after@[x]
                            == before@.insert(k@, v)[x] by {
                            let j = choose|j: int| after.at(x, j);
                            after.lemma_place(j);
                            if j < n {
                                assert(before.at(x, j));
                                before.lemma_place(j);
                            }
                        }
                    }
                }
            },
        }
    }

    /// Takes a key out; the value it had, if it was there.
    pub fn remove(&mut self, k: &str) -> (r: Option<V>)
        requires
            old(self).wf(),
        ensures
            final(self).wf(),
            final(self)@ == old(self)@.remove(k@),
            match r {
                Some(v) => old(self)@.contains_key(k@) && v == old(self)@[k@],
                None => !old(self)@.contains_key(k@),
            },
    {
        let ghost before = *self;
        match self.find(k) {
            Some(i) => {
                let gone = self.keys.remove(i);
                let v = self.vals.remove(i);
                proof {
                    let after = *self;
                    assert forall|a: int, b: int| 0 <= a < b < after.keys@.len() implies (
                    #[trigger] after.keys@[a]@) != (#[trigger] after.keys@[b]@) by {
                        let a2 = if a < i { a } else { a + 1 };
                        let b2 = if b < i { b } else { b + 1 };
                        assert(before.keys@[a2]@ != before.keys@[b2]@);
                    }
                    assert(after@ =~= before@.remove(k@)) by {
                        assert forall|x: Seq<char>| after@.contains_key(x) == before@.remove(
                            k@,
                        ).contains_key(x) by {
                            if after@.contains_key(x) {
                                let j = choose|j: int| after.at(x, j);
                                let j2 = if j < i { j } else { j + 1 };
                                assert(before.at(x, j2));
                                if j2 < i {
                                    assert(before.keys@[j2]@ != before.keys@[i as int]@);
                                } else {
                                    assert(before.keys@[i as int]@ != before.keys@[j2]@);
                                }
                            }
                            if before@.remove(k@).contains_key(x) {
                                let j = choose|j: int| before.at(x, j);
                                let j2 = if j < i { j } else { j - 1 };
                                assert(after.at(x, j2));
                            }
                        }
                        assert forall|x: Seq<char>| after@.contains_key(x) implies after@[x]
                            == before@.remove(k@)[x] by {
                            let j = choose|j: int| after.at(x, j);
                            let j2 = if j < i { j } else { j + 1 };
                            assert(before.at(x, j2));
                            after.lemma_place(j);
                            before.lemma_place(j2);
                        }
                    }
                }
                Some(v)
            },
            None => {
                assert(self@ =~= before@.remove(k@));
                None
            },
        }
    }
}

} // verus!
