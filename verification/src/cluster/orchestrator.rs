//! Orchestrator election: the healthy node with the lexicographically lowest name
//! coordinates the cluster.

use crate::text::{
    copy_opt, lemma_text_lt_irreflexive, lemma_text_lt_total, lemma_text_lt_transitive, opt_text,
    text_before, text_lt,
};
use vstd::prelude::*;

verus! {

/// Role of a node.
#[derive(Debug, Clone, Copy, PartialEq, Eq, Structural)]
pub enum OrchestratorRole {
    /// This node coordinates the cluster.
    Orchestrator,
    /// This node leaves topology decisions to the orchestrator.
    Follower,
}

/// Orchestrator state snapshot.
#[derive(Debug, Clone)]
pub struct OrchestratorState {
    pub orchestrator_node: String,
    /// This node's role.
    pub role: OrchestratorRole,
    pub orchestrator_url: Option<String>,
    /// Number of healthy nodes taking part in the election.
    pub participating_nodes: usize,
    /// Raised on every orchestrator change.
    pub revision: u64,
}

/// What an [`OrchestratorState`] stands for.
#[verifier::ext_equal]
pub struct OrchestratorView {
    pub node: Seq<char>,
    pub role: OrchestratorRole,
    pub url: Option<Seq<char>>,
    pub participating_nodes: usize,
    pub revision: u64,
}

impl View for OrchestratorState {
    type V = OrchestratorView;

    open spec fn view(&self) -> OrchestratorView {
        OrchestratorView {
            node: self.orchestrator_node@,
            role: self.role,
            url: opt_text(self.orchestrator_url),
            participating_nodes: self.participating_nodes,
            revision: self.revision,
        }
    }
}

impl OrchestratorState {
    /// A copy.
    pub fn copy(&self) -> (r: OrchestratorState)
        ensures
            r == *self,
    {
        OrchestratorState {
            orchestrator_node: self.orchestrator_node.clone(),
            role: self.role,
            orchestrator_url: copy_opt(&self.orchestrator_url),
            participating_nodes: self.participating_nodes,
            revision: self.revision,
        }
    }
}

/// The place of the elected node in a list of names.
pub open spec fn elected_place(names: Seq<Seq<char>>) -> int {
    choose|i: int| is_elected(names, i)
}

/// The names in a list of names and addresses.
pub open spec fn names_of(nodes: Seq<(String, String)>) -> Seq<Seq<char>> {
    Seq::new(nodes.len(), |i: int| nodes[i].0@)
}

/// Whether the node at place `i` is elected: no name is lower, and it is the first of its name.
pub open spec fn is_elected(names: Seq<Seq<char>>, i: int) -> bool {
    &&& 0 <= i < names.len()
    &&& forall|j: int| 0 <= j < names.len() ==> !text_lt(#[trigger] names[j], names[i])
    &&& forall|j: int| 0 <= j < i ==> #[trigger] names[j] != names[i]
}

/// Elects the orchestrator among `(node_name, base_url)` pairs; nobody where there is no node.
pub fn elect_orchestrator(healthy_nodes: &[(String, String)]) -> (r: Option<(String, String)>)
    ensures
        match r {
            Some(w) => {
                let i = elected_place(names_of(healthy_nodes@));
                is_elected(names_of(healthy_nodes@), i) && w == healthy_nodes@[i]
            },
            None => healthy_nodes@.len() == 0,
        },
{
    let ghost names = names_of(healthy_nodes@);
    if healthy_nodes.len() == 0 {
        return None;
    }
    let mut best: usize = 0;
    let mut k: usize = 1;
    proof {
        lemma_text_lt_irreflexive(names[0]);
    }
    while k < healthy_nodes.len()
        invariant
            1 <= k <= healthy_nodes@.len(),
            best < k,
            names == names_of(healthy_nodes@),
            forall|j: int| 0 <= j < k ==> !text_lt(#[trigger] names[j], names[best as int]),
            forall|j: int| 0 <= j < best ==> #[trigger] names[j] != names[best as int],
        decreases healthy_nodes@.len() - k,
    {
        let ghost was = best as int;
        if text_before(healthy_nodes[k].0.as_str(), healthy_nodes[best].0.as_str()) {
            best = k;
            proof {
                lemma_text_lt_irreflexive(names[k as int]);
                assert forall|j: int| 0 <= j < k implies !text_lt(
                    #[trigger] names[j],
                    names[k as int],
                ) && names[j] != names[k as int] by {
                    if text_lt(names[j], names[k as int]) {
                        lemma_text_lt_transitive(names[j], names[k as int], names[was]);
                    }
                }
            }
        }
        k = k + 1;
    }
    proof {
        assert(is_elected(names, best as int));
        law_election_is_unique(names, best as int, elected_place(names));
    }
    Some((healthy_nodes[best].0.clone(), healthy_nodes[best].1.clone()))
}

/// The elected name depends only on which names take part: two lists of the same names, in
/// whatever order, elect the same name.
pub proof fn law_election_ignores_order(a: Seq<Seq<char>>, b: Seq<Seq<char>>, i: int, j: int)
    requires
        forall|name: Seq<char>| a.contains(name) == b.contains(name),
        is_elected(a, i),
        is_elected(b, j),
    ensures
        a[i] == b[j],
{
    assert(a.contains(a[i]));
    assert(b.contains(b[j]));
    assert(b.contains(a[i]));
    assert(a.contains(b[j]));
    let i2 = choose|k: int| 0 <= k < b.len() && b[k] == a[i];
    let j2 = choose|k: int| 0 <= k < a.len() && a[k] == b[j];
    if a[i] != b[j] {
        lemma_text_lt_total(a[i], b[j]);
        assert(!text_lt(b[i2], b[j]));
        assert(!text_lt(a[j2], a[i]));
    }
}

/// At most one place of a list is elected.
pub proof fn law_election_is_unique(names: Seq<Seq<char>>, i: int, j: int)
    requires
        is_elected(names, i),
        is_elected(names, j),
    ensures
        i == j,
{
    law_election_ignores_order(names, names, i, j);
    if i < j {
        assert(names[i] != names[j]);
    }
    if j < i {
        assert(names[j] != names[i]);
    }
}

/// When the orchestrator leaves, the next lowest name takes over: it is lower than every
/// other name that stays.
pub proof fn law_next_lowest_takes_over(names: Seq<Seq<char>>, i: int, j: int)
    requires
        is_elected(names, i),
        is_elected(names.remove(i), j),
    ensures
        names.contains(names.remove(i)[j]),
        !text_lt(names.remove(i)[j], names[i]),
        forall|k: int|
            0 <= k < names.len() && k != i ==> !text_lt(#[trigger] names[k], names.remove(i)[j]),
{
    let rest = names.remove(i);
    let p = if j < i {
        j
    } else {
        j + 1
    };
    assert(rest[j] == names[p]);
    assert forall|k: int| 0 <= k < names.len() && k != i implies !text_lt(
        #[trigger] names[k],
        rest[j],
    ) by {
        let q = if k < i {
            k
        } else {
            k - 1
        };
        assert(rest[q] == names[k]);
    }
}

// ---- Laws ----

/// The elected node has the lowest name: every other name comes after it. Every list of nodes that is
/// not empty elects one.
pub proof fn law_lowest_name_is_elected(names: Seq<Seq<char>>, i: int, name: Seq<char>)
    requires
        is_elected(names, i),
        names.contains(name),
        name != names[i],
    ensures
        text_lt(names[i], name),
        names.contains(names[i]),
{
    let j = choose|j: int| 0 <= j < names.len() && names[j] == name;
    assert(!text_lt(names[j], names[i]));
    lemma_text_lt_total(names[i], name);
}

} // verus!
