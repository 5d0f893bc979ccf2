//! The partition map: which node owns which vBucket, and how ownership is spread anew when
//! the set of nodes changes.

use crate::document::Document;
use crate::strmap::StrMap;
use crate::text::{contains_text, copy_texts, same_text, texts};
use vstd::prelude::*;

verus! {

/// Describes the ownership of a single vBucket.
#[derive(Debug, Clone)]
pub struct VBucketOwnership {
    /// The node that owns this vBucket (active copy).
    pub active_node: String,
    /// Nodes holding replica copies.
    pub replica_nodes: Vec<String>,
}

/// What a [`VBucketOwnership`] stands for.
#[verifier::ext_equal]
pub struct OwnershipView {
    pub active: Seq<char>,
    pub replicas: Seq<Seq<char>>,
}

impl View for VBucketOwnership {
    type V = OwnershipView;

    open spec fn view(&self) -> OwnershipView {
        OwnershipView { active: self.active_node@, replicas: texts(self.replica_nodes@) }
    }
}

impl VBucketOwnership {
    /// A copy.
    pub fn copy(&self) -> (r: VBucketOwnership)
        ensures
            r@ == self@,
    {
        VBucketOwnership {
            active_node: self.active_node.clone(),
            replica_nodes: copy_texts(&self.replica_nodes),
        }
    }
}

/// Maps every vBucket to its active and replica nodes.
#[derive(Debug, Clone)]
pub struct PartitionMap {
    /// Total number of vBuckets.
    pub num_vbuckets: u16,
    /// Number of replicas per vBucket.
    pub num_replicas: u8,
    /// Map revision, raised by every rebalance.
    pub revision: u64,
    /// Ownership by vBucket id.
    pub map: Vec<VBucketOwnership>,
}

/// What a [`PartitionMap`] stands for.
#[verifier::ext_equal]
pub struct PartitionMapView {
    pub num_vbuckets: u16,
    pub num_replicas: u8,
    pub revision: u64,
    pub map: Seq<OwnershipView>,
}

/// Summary of the vBuckets that one node is responsible for.
#[derive(Debug, Clone)]
pub struct NodePartitionInfo {
    pub node_name: String,
    pub active_vbuckets: Vec<u16>,
    pub replica_vbuckets: Vec<u16>,
    pub active_count: usize,
    pub replica_count: usize,
}

/// How far a rebalance has come.
#[derive(Debug, Clone, Copy, PartialEq, Eq, Structural)]
pub enum Progress {
    /// Nothing is done yet.
    NotStarted,
    /// So many of the transfers are done.
    Partial { completed: usize, total: usize },
    /// Everything is done.
    Done,
}

/// Rebalance progress tracking.
#[derive(Debug, Clone, Copy, PartialEq, Eq, Structural)]
pub struct RebalanceStatus {
    pub in_progress: bool,
    pub progress: Progress,
    pub transfers_total: usize,
    pub transfers_completed: usize,
    pub source_map_revision: u64,
    pub target_map_revision: u64,
}

/// Describes a vBucket transfer during rebalance.
#[derive(Debug, Clone)]
pub struct VBucketTransfer {
    pub vbucket_id: u16,
    pub from_node: String,
    pub to_node: String,
    pub status: TransferStatus,
}

/// What a [`VBucketTransfer`] stands for.
#[verifier::ext_equal]
pub struct TransferView {
    pub vbucket_id: u16,
    pub from_node: Seq<char>,
    pub to_node: Seq<char>,
    pub status: TransferStatus,
}

impl View for VBucketTransfer {
    type V = TransferView;

    open spec fn view(&self) -> TransferView {
        TransferView {
            vbucket_id: self.vbucket_id,
            from_node: self.from_node@,
            to_node: self.to_node@,
            status: self.status,
        }
    }
}

impl VBucketTransfer {
    /// A copy.
    pub fn copy(&self) -> (r: VBucketTransfer)
        ensures
            r == *self,
    {
        VBucketTransfer {
            vbucket_id: self.vbucket_id,
            from_node: self.from_node.clone(),
            to_node: self.to_node.clone(),
            status: self.status,
        }
    }
}

/// What a list of transfers stands for.
pub open spec fn transfer_views(v: Seq<VBucketTransfer>) -> Seq<TransferView> {
    Seq::new(v.len(), |i: int| v[i]@)
}

#[derive(Debug, Clone, Copy, PartialEq, Eq, Structural)]
pub enum TransferStatus {
    Pending,
    InProgress,
    Completed,
    Failed,
}

/// Data payload for transferring a vBucket between nodes.
#[derive(Debug, Clone)]
pub struct VBucketData {
    pub vbucket_id: u16,
    pub high_seq_no: u64,
    pub documents: Vec<Document>,
}

// ---- The distribution, in mathematics ----

/// How many vBuckets the node at place `i` of `n` nodes should own out of `total`: an even
/// share, the first nodes taking one more where the division leaves a remainder.
pub open spec fn target(total: nat, n: nat, i: int) -> nat {
    if i < total % n {
        total / n + 1
    } else {
        total / n
    }
}

/// The last place at which a name stands in a list of nodes.
pub open spec fn last_index(nodes: Seq<Seq<char>>, name: Seq<char>) -> Option<int>
    decreases nodes.len(),
{
    if nodes.len() == 0 {
        None
    } else if nodes.last() == name {
        Some(nodes.len() - 1)
    } else {
        last_index(nodes.drop_last(), name)
    }
}

/// How often a name occurs in a list.
pub open spec fn occurrences(s: Seq<Seq<char>>, name: Seq<char>) -> nat
    decreases s.len(),
{
    if s.len() == 0 {
        0
    } else {
        occurrences(s.drop_last(), name) + if s.last() == name {
            1nat
        } else {
            0nat
        }
    }
}

/// The owners of the vBuckets, in the order of their ids.
pub open spec fn owners(map: Seq<OwnershipView>) -> Seq<Seq<char>> {
    Seq::new(map.len(), |i: int| map[i].active)
}

/// Whether vBucket `vb` stays where it is when `was` is spread over `nodes`: its owner is
/// still there and owns fewer earlier vBuckets than its share.
pub open spec fn keeps(was: Seq<Seq<char>>, nodes: Seq<Seq<char>>, vb: int) -> bool {
    match last_index(nodes, was[vb]) {
        Some(i) => occurrences(was.take(vb), was[vb]) < target(was.len(), nodes.len(), i),
        None => false,
    }
}

/// How many of the first `vb` vBuckets do not stay.
pub open spec fn moved_before(was: Seq<Seq<char>>, nodes: Seq<Seq<char>>, vb: int) -> nat
    decreases vb,
{
    if vb <= 0 {
        0
    } else {
        moved_before(was, nodes, vb - 1) + if keeps(was, nodes, vb - 1) {
            0nat
        } else {
            1nat
        }
    }
}

/// How many of the first `vb` vBuckets the node at place `i` keeps.
pub open spec fn kept_before(was: Seq<Seq<char>>, nodes: Seq<Seq<char>>, vb: int, i: int) -> nat {
    if last_index(nodes, nodes[i]) == Some(i) {
        let have = occurrences(was.take(vb), nodes[i]);
        let share = target(was.len(), nodes.len(), i);
        if have < share {
            have
        } else {
            share
        }
    } else {
        0
    }
}

/// How many vBuckets each node still has to take up to own its share.
pub open spec fn needs(was: Seq<Seq<char>>, nodes: Seq<Seq<char>>) -> Seq<nat> {
    Seq::new(
        nodes.len(),
        |i: int|
            (target(was.len(), nodes.len(), i) - kept_before(was, nodes, was.len() as int, i)) as nat,
    )
}

/// The place of the node that takes the `j`-th moved vBucket, counting from zero, when the
/// nodes from place `i` on are filled up one after the other.
pub open spec fn taker(need: Seq<nat>, i: int, j: int) -> int
    decreases need.len() - i,
{
    if i >= need.len() || j < need[i] {
        i
    } else {
        taker(need, i + 1, j - need[i])
    }
}

/// The owner of vBucket `vb` after spreading `was` over `nodes`.
pub open spec fn new_owner(was: Seq<Seq<char>>, nodes: Seq<Seq<char>>, vb: int) -> Seq<char> {
    if keeps(was, nodes, vb) {
        was[vb]
    } else {
        nodes[taker(needs(was, nodes), 0, moved_before(was, nodes, vb) as int)]
    }
}

/// The owners of all vBuckets after spreading `was` over `nodes`.
pub open spec fn new_owners(was: Seq<Seq<char>>, nodes: Seq<Seq<char>>) -> Seq<Seq<char>> {
    Seq::new(was.len(), |vb: int| new_owner(was, nodes, vb))
}

/// The replicas of a vBucket whose owner stands at place `a`: the `r` nodes that follow it
/// around the ring, leaving the owner out.
pub open spec fn ring_replicas(nodes: Seq<Seq<char>>, a: int, r: int) -> Seq<Seq<char>>
    decreases r,
{
    if r <= 0 {
        Seq::empty()
    } else {
        let rest = ring_replicas(nodes, a, r - 1);
        let p = (a + r) % nodes.len() as int;
        if nodes.len() > 1 && p != a {
            rest.push(nodes[p])
        } else {
            rest
        }
    }
}

/// A map from texts to strings, as a map from texts to texts.
pub open spec fn text_map(m: Map<Seq<char>, String>) -> Map<Seq<char>, Seq<char>> {
    Map::new(|k: Seq<char>| m.contains_key(k), |k: Seq<char>| m[k]@)
}

/// The server group of a node; nodes without one are in the default group.
pub open spec fn group_of(groups: Map<Seq<char>, Seq<char>>, name: Seq<char>) -> Seq<char> {
    if groups.contains_key(name) {
        groups[name]
    } else {
        "Group 1"@
    }
}

/// Whether a group holds the owner or one of the replicas picked so far.
pub open spec fn group_used(
    groups: Map<Seq<char>, Seq<char>>,
    active: Seq<char>,
    picked: Seq<Seq<char>>,
    group: Seq<char>,
) -> bool {
    group_of(groups, active) == group || exists|i: int|
        0 <= i < picked.len() && group_of(groups, #[trigger] picked[i]) == group
}

/// Replicas picked among the first `k` nodes, at most `limit`, each from a group of its own.
pub open spec fn spread_replicas(
    nodes: Seq<Seq<char>>,
    groups: Map<Seq<char>, Seq<char>>,
    active: Seq<char>,
    limit: nat,
    k: int,
) -> Seq<Seq<char>>
    decreases k,
{
    if k <= 0 {
        Seq::empty()
    } else {
        let rest = spread_replicas(nodes, groups, active, limit, k - 1);
        let name = nodes[k - 1];
        if rest.len() < limit && name != active && !group_used(
            groups,
            active,
            rest,
            group_of(groups, name),
        ) {
            rest.push(name)
        } else {
            rest
        }
    }
}

/// `picked`, filled up to `limit` with nodes among the first `k` that are not in it yet.
pub open spec fn filled_replicas(
    nodes: Seq<Seq<char>>,
    picked: Seq<Seq<char>>,
    active: Seq<char>,
    limit: nat,
    k: int,
) -> Seq<Seq<char>>
    decreases k,
{
    if k <= 0 {
        picked
    } else {
        let rest = filled_replicas(nodes, picked, active, limit, k - 1);
        let name = nodes[k - 1];
        if rest.len() < limit && name != active && !rest.contains(name) {
            rest.push(name)
        } else {
            rest
        }
    }
}

/// The replicas of a vBucket owned by `active`: first nodes from groups of their own, then
/// any other node, up to `limit`.
pub open spec fn group_replicas(
    nodes: Seq<Seq<char>>,
    groups: Map<Seq<char>, Seq<char>>,
    active: Seq<char>,
    limit: nat,
) -> Seq<Seq<char>> {
    let n = nodes.len() as int;
    filled_replicas(nodes, spread_replicas(nodes, groups, active, limit, n), active, limit, n)
}

/// The transfers that lead from the owners `was` to the owners `now`, for the first `k`
/// vBuckets: one for each vBucket that had an owner and got another.
pub open spec fn transfer_list(was: Seq<Seq<char>>, now: Seq<Seq<char>>, k: int) -> Seq<
    TransferView,
>
    decreases k,
{
    if k <= 0 {
        Seq::empty()
    } else {
        let rest = transfer_list(was, now, k - 1);
        let vb = k - 1;
        if was[vb] != now[vb] && was[vb].len() != 0 {
            rest.push(
                TransferView {
                    vbucket_id: vb as u16,
                    from_node: was[vb],
                    to_node: now[vb],
                    status: TransferStatus::Pending,
                },
            )
        } else {
            rest
        }
    }
}

impl PartitionMapView {
    /// The first map over `nodes`: owners dealt out in turn.
    pub open spec fn fresh(num_vbuckets: u16, num_replicas: u8, nodes: Seq<Seq<char>>) -> Self {
        PartitionMapView {
            num_vbuckets,
            num_replicas,
            revision: 1,
            map: Seq::new(
                num_vbuckets as nat,
                |vb: int|
                    if nodes.len() == 0 {
                        OwnershipView { active: Seq::empty(), replicas: Seq::empty() }
                    } else {
                        let a = vb % nodes.len() as int;
                        OwnershipView {
                            active: nodes[a],
                            replicas: ring_replicas(nodes, a, num_replicas as int),
                        }
                    },
            ),
        }
    }

    /// The map after a rebalance over `nodes`.
    pub open spec fn rebalanced(self, nodes: Seq<Seq<char>>) -> Self {
        let now = new_owners(owners(self.map), nodes);
        if nodes.len() == 0 {
            self
        } else {
            PartitionMapView {
                revision: (self.revision + 1) as u64,
                map: Seq::new(
                    now.len(),
                    |vb: int|
                        OwnershipView {
                            active: now[vb],
                            replicas: ring_replicas(
                                nodes,
                                last_index(nodes, now[vb])->0,
                                self.num_replicas as int,
                            ),
                        },
                ),
                ..self
            }
        }
    }

    /// The map after a rebalance over `nodes` that spreads replicas over server groups.
    pub open spec fn group_rebalanced(
        self,
        nodes: Seq<Seq<char>>,
        groups: Map<Seq<char>, Seq<char>>,
    ) -> Self {
        let now = new_owners(owners(self.map), nodes);
        if nodes.len() == 0 {
            self
        } else {
            PartitionMapView {
                revision: (self.revision + 1) as u64,
                map: Seq::new(
                    now.len(),
                    |vb: int|
                        OwnershipView {
                            active: now[vb],
                            replicas: group_replicas(
                                nodes,
                                groups,
                                now[vb],
                                self.num_replicas as nat,
                            ),
                        },
                ),
                ..self
            }
        }
    }

    /// The transfers that a rebalance over `nodes` asks for.
    pub open spec fn rebalance_transfers(self, nodes: Seq<Seq<char>>) -> Seq<TransferView> {
        if nodes.len() == 0 {
            Seq::empty()
        } else {
            let was = owners(self.map);
            transfer_list(was, new_owners(was, nodes), was.len() as int)
        }
    }

    /// The ids below `k` of the vBuckets that `name` owns, in ascending order.
    pub open spec fn active_ids(self, name: Seq<char>, k: int) -> Seq<u16>
        decreases k,
    {
        if k <= 0 {
            Seq::empty()
        } else if self.map[k - 1].active == name {
            self.active_ids(name, k - 1).push((k - 1) as u16)
        } else {
            self.active_ids(name, k - 1)
        }
    }

    /// The ids below `k` of the vBuckets of which `name` is a replica, in ascending order.
    pub open spec fn replica_ids(self, name: Seq<char>, k: int) -> Seq<u16>
        decreases k,
    {
        if k <= 0 {
            Seq::empty()
        } else if self.map[k - 1].replicas.contains(name) {
            self.replica_ids(name, k - 1).push((k - 1) as u16)
        } else {
            self.replica_ids(name, k - 1)
        }
    }

    /// Like [`Self::replica_ids`], an id standing once for each time that `name` is listed.
    pub open spec fn replica_listings(self, name: Seq<char>, k: int) -> Seq<u16>
        decreases k,
    {
        if k <= 0 {
            Seq::empty()
        } else {
            self.replica_listings(name, k - 1) + Seq::new(
                occurrences(self.map[k - 1].replicas, name),
                |i: int| (k - 1) as u16,
            )
        }
    }
}

// ---- Facts about the distribution ----

proof fn lemma_last_index(nodes: Seq<Seq<char>>, name: Seq<char>)
    ensures
        match last_index(nodes, name) {
            Some(i) => 0 <= i < nodes.len() && nodes[i] == name && forall|j: int|
                i < j < nodes.len() ==> nodes[j] != name,
            None => forall|j: int| 0 <= j < nodes.len() ==> nodes[j] != name,
        },
    decreases nodes.len(),
{
    if nodes.len() > 0 && nodes.last() != name {
        lemma_last_index(nodes.drop_last(), name);
        assert forall|j: int| 0 <= j < nodes.len() - 1 implies nodes[j] == nodes.drop_last()[j] by {}
    }
}

/// The sum of a list of numbers.
pub open spec fn total_of(s: Seq<nat>) -> nat
    decreases s.len(),
{
    if s.len() == 0 {
        0
    } else {
        total_of(s.drop_last()) + s.last()
    }
}

proof fn lemma_total_update(s: Seq<nat>, i: int, v: nat)
    requires
        0 <= i < s.len(),
    ensures
        total_of(s.update(i, v)) + s[i] == total_of(s) + v,
    decreases s.len(),
{
    let t = s.update(i, v);
    if i == s.len() - 1 {
        assert(t.drop_last() =~= s.drop_last());
    } else {
        lemma_total_update(s.drop_last(), i, v);
        assert(t.drop_last() =~= s.drop_last().update(i, v));
    }
}

proof fn lemma_total_zero(s: Seq<nat>)
    requires
        forall|i: int| 0 <= i < s.len() ==> s[i] == 0,
    ensures
        total_of(s) == 0,
    decreases s.len(),
{
    if s.len() > 0 {
        lemma_total_zero(s.drop_last());
    }
}

/// Where the sums differ, one of the numbers does.
proof fn lemma_total_gap(a: Seq<nat>, b: Seq<nat>) -> (i: int)
    requires
        a.len() == b.len(),
        total_of(a) < total_of(b),
        forall|i: int| 0 <= i < a.len() ==> a[i] <= b[i],
    ensures
        0 <= i < a.len(),
        a[i] < b[i],
    decreases a.len(),
{
    if a.last() < b.last() {
        a.len() - 1
    } else {
        lemma_total_gap(a.drop_last(), b.drop_last())
    }
}

/// The shares of all nodes.
pub open spec fn targets(total: nat, n: nat) -> Seq<nat> {
    Seq::new(n, |i: int| target(total, n, i))
}

proof fn lemma_targets_prefix(total: nat, n: nat, k: int)
    requires
        n > 0,
        0 <= k <= n,
    ensures
        total_of(targets(total, n).take(k)) == k * (total / n) + if k < total % n {
            k
        } else {
            (total % n) as int
        },
    decreases k,
{
    let t = targets(total, n);
    if k > 0 {
        lemma_targets_prefix(total, n, k - 1);
        assert(t.take(k).drop_last() =~= t.take(k - 1));
        let b = (total / n) as int;
        assert(k * b == (k - 1) * b + b) by (nonlinear_arith);
    } else {
        assert(t.take(0) =~= Seq::<nat>::empty());
        assert(0 * ((total / n) as int) == 0);
    }
}

/// The shares add up to the whole.
proof fn lemma_targets_total(total: nat, n: nat)
    requires
        n > 0,
    ensures
        total_of(targets(total, n)) == total,
{
    lemma_targets_prefix(total, n, n as int);
    assert(targets(total, n).take(n as int) =~= targets(total, n));
    vstd::arithmetic::div_mod::lemma_fundamental_div_mod(total as int, n as int);
    vstd::arithmetic::div_mod::lemma_mod_bound(total as int, n as int);
}

/// The kept counts of all nodes among the first `vb` vBuckets.
spec fn kept_counts(was: Seq<Seq<char>>, nodes: Seq<Seq<char>>, vb: int) -> Seq<nat> {
    Seq::new(nodes.len(), |i: int| kept_before(was, nodes, vb, i))
}

proof fn lemma_kept_step(was: Seq<Seq<char>>, nodes: Seq<Seq<char>>, vb: int)
    requires
        0 <= vb < was.len(),
    ensures
        match last_index(nodes, was[vb]) {
            Some(i) => if keeps(was, nodes, vb) {
                kept_counts(was, nodes, vb + 1) == kept_counts(was, nodes, vb).update(
                    i,
                    kept_before(was, nodes, vb, i) + 1,
                ) && kept_before(was, nodes, vb, i) < target(was.len(), nodes.len(), i)
            } else {
                kept_counts(was, nodes, vb + 1) == kept_counts(was, nodes, vb) && kept_before(
                    was,
                    nodes,
                    vb,
                    i,
                ) == target(was.len(), nodes.len(), i)
            },
            None => kept_counts(was, nodes, vb + 1) == kept_counts(was, nodes, vb),
        },
{
    lemma_last_index(nodes, was[vb]);
    assert(was.take(vb + 1).drop_last() =~= was.take(vb));
    let a = kept_counts(was, nodes, vb);
    let b = kept_counts(was, nodes, vb + 1);
    assert forall|i: int| 0 <= i < nodes.len() implies b[i] == a[i] || (last_index(
        nodes,
        was[vb],
    ) == Some(i) && keeps(was, nodes, vb) && b[i] == a[i] + 1) by {
        lemma_last_index(nodes, nodes[i]);
        if nodes[i] == was[vb] {
        } else {
            assert(occurrences(was.take(vb + 1), nodes[i]) == occurrences(was.take(vb), nodes[i]));
        }
    }
    match last_index(nodes, was[vb]) {
        Some(i) => {
            assert(nodes[i] == was[vb]);
            if keeps(was, nodes, vb) {
                assert(b[i] == a[i] + 1);
                assert(b =~= a.update(i, (a[i] + 1) as nat));
            } else {
                assert(b =~= a);
            }
        },
        None => {
            assert(b =~= a);
        },
    }
}

proof fn lemma_kept_start(was: Seq<Seq<char>>, nodes: Seq<Seq<char>>)
    ensures
        kept_counts(was, nodes, 0) == Seq::new(nodes.len(), |i: int| 0nat),
{
    assert(was.take(0) =~= Seq::<Seq<char>>::empty());
    assert(kept_counts(was, nodes, 0) =~= Seq::new(nodes.len(), |i: int| 0nat));
}

/// Every vBucket is either kept by one of the nodes or moved.
proof fn lemma_kept_total(was: Seq<Seq<char>>, nodes: Seq<Seq<char>>, vb: int)
    requires
        0 <= vb <= was.len(),
    ensures
        total_of(kept_counts(was, nodes, vb)) + moved_before(was, nodes, vb) == vb,
    decreases vb,
{
    if vb == 0 {
        lemma_kept_start(was, nodes);
        lemma_total_zero(kept_counts(was, nodes, 0));
    } else {
        lemma_kept_total(was, nodes, vb - 1);
        lemma_kept_step(was, nodes, vb - 1);
        lemma_last_index(nodes, was[vb - 1]);
        match last_index(nodes, was[vb - 1]) {
            Some(i) => {
                let a = kept_counts(was, nodes, vb - 1);
                lemma_total_update(a, i, (a[i] + 1) as nat);
            },
            None => {},
        }
    }
}

/// The needs add up to the number of moved vBuckets.
proof fn lemma_needs_total(was: Seq<Seq<char>>, nodes: Seq<Seq<char>>)
    requires
        nodes.len() > 0,
    ensures
        total_of(needs(was, nodes)) == moved_before(was, nodes, was.len() as int),
{
    let t = targets(was.len(), nodes.len());
    let k = kept_counts(was, nodes, was.len() as int);
    lemma_targets_total(was.len(), nodes.len());
    lemma_kept_total(was, nodes, was.len() as int);
    lemma_total_diff(t, k, needs(was, nodes));
}

proof fn lemma_total_diff(t: Seq<nat>, k: Seq<nat>, d: Seq<nat>)
    requires
        t.len() == k.len() == d.len(),
        forall|i: int| 0 <= i < t.len() ==> t[i] == k[i] + d[i],
    ensures
        total_of(t) == total_of(k) + total_of(d),
    decreases t.len(),
{
    if t.len() > 0 {
        lemma_total_diff(t.drop_last(), k.drop_last(), d.drop_last());
    }
}

proof fn lemma_total_prefix(s: Seq<nat>, i: int)
    requires
        0 <= i < s.len(),
    ensures
        total_of(s.take(i + 1)) == total_of(s.take(i)) + s[i],
{
    assert(s.take(i + 1).drop_last() =~= s.take(i));
}

proof fn lemma_total_prefix_le(s: Seq<nat>, i: int, j: int)
    requires
        0 <= i <= j <= s.len(),
    ensures
        total_of(s.take(i)) <= total_of(s.take(j)),
    decreases j - i,
{
    if i < j {
        lemma_total_prefix(s, j - 1);
        lemma_total_prefix_le(s, i, j - 1);
    }
}

/// The node at place `i` takes the moved vBuckets counted from the sum of the earlier needs.
proof fn lemma_taker(need: Seq<nat>, i: int, j: int)
    requires
        0 <= i < need.len(),
        total_of(need.take(i)) <= j < total_of(need.take(i)) + need[i],
    ensures
        taker(need, 0, j) == i,
{
    lemma_taker_skips(need, i, j);
}

proof fn lemma_taker_skips(need: Seq<nat>, i: int, j: int)
    requires
        0 <= i <= need.len(),
        total_of(need.take(i)) <= j,
    ensures
        taker(need, 0, j) == taker(need, i, j - total_of(need.take(i))),
    decreases i,
{
    if i == 0 {
        assert(need.take(0) =~= Seq::<nat>::empty());
    } else {
        lemma_total_prefix(need, i - 1);
        lemma_taker_skips(need, i - 1, j);
    }
}

/// A rank below the sum of the needs is taken by one of the nodes.
proof fn lemma_taker_in_range(need: Seq<nat>, i: int, j: int)
    requires
        0 <= i <= need.len(),
        0 <= j,
        j + total_of(need.take(i)) < total_of(need),
    ensures
        i <= taker(need, i, j) < need.len(),
        total_of(need.take(taker(need, i, j))) <= j + total_of(need.take(i)),
        j + total_of(need.take(i)) < total_of(need.take(taker(need, i, j) + 1)),
    decreases need.len() - i,
{
    if i == need.len() {
        assert(need.take(i) =~= need);
    } else {
        lemma_total_prefix(need, i);
        if j >= need[i] {
            lemma_taker_in_range(need, i + 1, j - need[i]);
        }
    }
}

proof fn lemma_moved_monotone(was: Seq<Seq<char>>, nodes: Seq<Seq<char>>, a: int, b: int)
    requires
        0 <= a <= b,
    ensures
        moved_before(was, nodes, a) <= moved_before(was, nodes, b),
        moved_before(was, nodes, b) <= moved_before(was, nodes, a) + (b - a),
    decreases b - a,
{
    if a < b {
        lemma_moved_monotone(was, nodes, a, b - 1);
    }
}

/// Every new owner is one of the nodes.
pub proof fn lemma_new_owner_is_a_node(was: Seq<Seq<char>>, nodes: Seq<Seq<char>>, vb: int)
    requires
        nodes.len() > 0,
        0 <= vb < was.len(),
    ensures
        nodes.contains(new_owner(was, nodes, vb)),
        last_index(nodes, new_owner(was, nodes, vb)) is Some,
{
    lemma_last_index(nodes, was[vb]);
    if keeps(was, nodes, vb) {
        assert(nodes[last_index(nodes, was[vb])->0] == was[vb]);
    } else {
        let need = needs(was, nodes);
        lemma_needs_total(was, nodes);
        lemma_moved_monotone(was, nodes, vb + 1, was.len() as int);
        assert(need.take(0) =~= Seq::<nat>::empty());
        lemma_taker_in_range(need, 0, moved_before(was, nodes, vb) as int);
    }
    lemma_last_index(nodes, new_owner(was, nodes, vb));
}

// ---- The executable map ----

/// The place of the last node of that name.
pub(crate) fn index_of(node_names: &[String], name: &str) -> (r: Option<usize>)
    ensures
        match r {
            Some(i) => last_index(texts(node_names@), name@) == Some(i as int) && i
                < node_names@.len(),
            None => last_index(texts(node_names@), name@) is None,
        },
{
    let ghost nodes = texts(node_names@);
    let mut i: usize = node_names.len();
    proof {
        assert(nodes.take(i as int) =~= nodes);
    }
    while i > 0
        invariant
            i <= node_names.len(),
            nodes == texts(node_names@),
            last_index(nodes, name@) == last_index(nodes.take(i as int), name@),
        decreases i,
    {
        i = i - 1;
        proof {
            assert(nodes.take(i + 1).last() == node_names@[i as int]@);
            assert(nodes.take(i + 1).drop_last() =~= nodes.take(i as int));
        }
        if same_text(node_names[i].as_str(), name) {
            return Some(i);
        }
    }
    None
}

/// The shares of the nodes.
fn target_counts(total: u16, n: usize) -> (r: Vec<usize>)
    requires
        n > 0,
    ensures
        r@.len() == n,
        forall|i: int| 0 <= i < n ==> r@[i] == target(total as nat, n as nat, i),
{
    let base_count: usize = total as usize / n;
    let remainder: usize = total as usize % n;
    let mut counts: Vec<usize> = Vec::new();
    let mut i: usize = 0;
    while i < n
        invariant
            i <= n,
            n > 0,
            base_count == total as nat / n as nat,
            remainder == total as nat % n as nat,
            base_count <= 65535,
            counts@.len() == i,
            forall|k: int| 0 <= k < i ==> counts@[k] == target(total as nat, n as nat, k),
        decreases n - i,
    {
        if i < remainder {
            counts.push(base_count + 1);
        } else {
            counts.push(base_count);
        }
        i = i + 1;
    }
    counts
}

spec fn as_nats(v: Seq<usize>) -> Seq<nat> {
    Seq::new(v.len(), |i: int| v[i] as nat)
}

/// Spreads the vBuckets over the nodes: each node keeps what it has up to its share, and
/// what is left over fills up the nodes in their order.
fn assign_owners(map: &Vec<VBucketOwnership>, node_names: &[String]) -> (r: Vec<String>)
    requires
        map@.len() <= u16::MAX,
        node_names@.len() > 0,
    ensures
        texts(r@) == new_owners(owners(Seq::new(map@.len(), |i: int| map@[i]@)), texts(node_names@)),
{
    let ghost views = Seq::new(map@.len(), |i: int| map@[i]@);
    let ghost was = owners(views);
    let ghost nodes = texts(node_names@);
    let n: usize = node_names.len();
    let total: u16 = map.len() as u16;
    let targets_now: Vec<usize> = target_counts(total, n);
    let mut assigned: Vec<usize> = Vec::new();
    let mut i: usize = 0;
    while i < n
        invariant
            i <= n,
            assigned@.len() == i,
            forall|k: int| 0 <= k < i ==> assigned@[k] == 0,
        decreases n - i,
    {
        assigned.push(0);
        i = i + 1;
    }
    let mut out: Vec<String> = Vec::new();
    let mut unassigned: Vec<usize> = Vec::new();
    proof {
        lemma_kept_start(was, nodes);
        assert(as_nats(assigned@) =~= kept_counts(was, nodes, 0));
    }
    let mut vb: usize = 0;
    while vb < map.len()
        invariant
            vb <= map@.len(),
            map@.len() <= u16::MAX,
            views == Seq::new(map@.len(), |i: int| map@[i]@),
            was == owners(views),
            nodes == texts(node_names@),
            n == node_names@.len(),
            n > 0,
            total == map@.len(),
            targets_now@.len() == n,
            forall|k: int| 0 <= k < n ==> targets_now@[k] == target(total as nat, n as nat, k),
            assigned@.len() == n,
            as_nats(assigned@) == kept_counts(was, nodes, vb as int),
            out@.len() == vb,
            forall|u: int| 0 <= u < vb && keeps(was, nodes, u) ==> out@[u]@ == was[u],
            unassigned@.len() == moved_before(was, nodes, vb as int),
            forall|u: int|
                0 <= u < vb && !keeps(was, nodes, u) ==> unassigned@[#[trigger] moved_before(
                    was,
                    nodes,
                    u,
                ) as int] == u && moved_before(was, nodes, u) < unassigned@.len(),
            forall|k: int|
                0 <= k < unassigned@.len() ==> (#[trigger] unassigned@[k]) < vb && !keeps(
                    was,
                    nodes,
                    unassigned@[k] as int,
                ) && moved_before(was, nodes, unassigned@[k] as int) == k,
        decreases map@.len() - vb,
    {
        let found = index_of(node_names, map[vb].active_node.as_str());
        proof {
            lemma_kept_step(was, nodes, vb as int);
            assert(was[vb as int] == map@[vb as int].active_node@);
        }
        let mut stays = false;
        match found {
            Some(idx) => {
                proof {
                    assert(as_nats(assigned@)[idx as int] == kept_before(
                        was,
                        nodes,
                        vb as int,
                        idx as int,
                    ));
                }
                if assigned[idx] < targets_now[idx] {
                    let c: usize = assigned[idx];
                    let ghost before = assigned@;
                    assigned.set(idx, c + 1);
                    stays = true;
                    proof {
                        assert(as_nats(assigned@) =~= as_nats(before).update(
                            idx as int,
                            (c + 1) as nat,
                        ));
                    }
                }
            },
            None => {},
        }
        assert(stays == keeps(was, nodes, vb as int));
        if stays {
            out.push(map[vb].active_node.clone());
        } else {
            out.push(String::new());
            unassigned.push(vb);
        }
        proof {
            assert forall|u: int| 0 <= u < vb + 1 && !keeps(was, nodes, u) implies unassigned@[
            #[trigger] moved_before(was, nodes, u) as int] == u && moved_before(was, nodes, u)
                < unassigned@.len() by {
                if u < vb {
                    lemma_moved_monotone(was, nodes, u + 1, vb as int);
                }
            }
        }
        vb = vb + 1;
    }
    let ghost need = needs(was, nodes);
    let ghost kept = as_nats(assigned@);
    let ghost full = targets(was.len(), nodes.len());
    proof {
        lemma_needs_total(was, nodes);
        lemma_targets_total(was.len(), nodes.len());
        lemma_kept_total(was, nodes, was.len() as int);
        assert(need.take(0) =~= Seq::<nat>::empty());
        assert forall|k: int| 0 <= k < n implies assigned@[k] <= targets_now@[k] by {
            assert(kept[k] == kept_before(was, nodes, was.len() as int, k));
        }
    }
    let mut assign_idx: usize = 0;
    let mut j: usize = 0;
    while j < unassigned.len()
        invariant
            j <= unassigned@.len(),
            map@.len() <= u16::MAX,
            n > 0,
            n == node_names@.len(),
            nodes == texts(node_names@),
            views == Seq::new(map@.len(), |i: int| map@[i]@),
            was == owners(views),
            total == map@.len(),
            need == needs(was, nodes),
            kept == kept_counts(was, nodes, was.len() as int),
            full == targets(was.len(), nodes.len()),
            total_of(full) == was.len(),
            targets_now@.len() == n,
            forall|k: int| 0 <= k < n ==> targets_now@[k] == target(total as nat, n as nat, k),
            assigned@.len() == n,
            unassigned@.len() == moved_before(was, nodes, was.len() as int),
            total_of(as_nats(assigned@)) + unassigned@.len() == was.len() + j,
            assign_idx < n,
            forall|k: int| 0 <= k < n ==> assigned@[k] <= targets_now@[k],
            forall|k: int| 0 <= k < assign_idx ==> assigned@[k] == targets_now@[k],
            forall|k: int| assign_idx < k < n ==> assigned@[k] as nat == kept[k],
            assigned@[assign_idx as int] >= kept[assign_idx as int],
            total_of(need.take(assign_idx as int)) + (assigned@[assign_idx as int]
                - kept[assign_idx as int]) == j,
            out@.len() == was.len(),
            forall|u: int| 0 <= u < was.len() && keeps(was, nodes, u) ==> out@[u]@ == was[u],
            forall|u: int|
                0 <= u < was.len() && !keeps(was, nodes, u) && #[trigger] moved_before(
                    was,
                    nodes,
                    u,
                ) < j ==> out@[u]@ == new_owner(was, nodes, u),
            forall|u: int|
                0 <= u < was.len() && !keeps(was, nodes, u) ==> unassigned@[#[trigger] moved_before(
                    was,
                    nodes,
                    u,
                ) as int] == u && moved_before(was, nodes, u) < unassigned@.len(),
            forall|k: int|
                0 <= k < unassigned@.len() ==> (#[trigger] unassigned@[k]) < was.len() && !keeps(
                    was,
                    nodes,
                    unassigned@[k] as int,
                ) && moved_before(was, nodes, unassigned@[k] as int) == k,
        decreases unassigned@.len() - j,
    {
        let ghost gap = lemma_total_gap(as_nats(assigned@), full);
        while assigned[assign_idx] >= targets_now[assign_idx]
            invariant
                n == node_names@.len(),
                nodes == texts(node_names@),
                was.len() == total,
                need == needs(was, nodes),
                kept == kept_counts(was, nodes, was.len() as int),
                full == targets(was.len(), nodes.len()),
                targets_now@.len() == n,
                forall|k: int| 0 <= k < n ==> targets_now@[k] == target(total as nat, n as nat, k),
                assigned@.len() == n,
                assign_idx < n,
                0 <= gap < n,
                assigned@[gap] < full[gap],
                assign_idx <= gap,
                forall|k: int| 0 <= k < n ==> assigned@[k] <= targets_now@[k],
                forall|k: int| 0 <= k < assign_idx ==> assigned@[k] == targets_now@[k],
                forall|k: int| assign_idx < k < n ==> assigned@[k] as nat == kept[k],
                assigned@[assign_idx as int] >= kept[assign_idx as int],
                total_of(need.take(assign_idx as int)) + (assigned@[assign_idx as int]
                    - kept[assign_idx as int]) == j,
            decreases n - assign_idx,
        {
            proof {
                lemma_total_prefix(need, assign_idx as int);
                assert(assigned@[assign_idx as int] == full[assign_idx as int]);
            }
            assign_idx = assign_idx + 1;
        }
        let vb: usize = unassigned[j];
        proof {
            assert(need[assign_idx as int] == full[assign_idx as int] - kept[assign_idx as int]);
            lemma_taker(need, assign_idx as int, j as int);
            assert(moved_before(was, nodes, vb as int) == j);
            assert(new_owner(was, nodes, vb as int) == nodes[assign_idx as int]);
        }
        let ghost out_before = out@;
        let ghost assigned_before = assigned@;
        out.set(vb, node_names[assign_idx].clone());
        let c: usize = assigned[assign_idx];
        assigned.set(assign_idx, c + 1);
        proof {
            assert(as_nats(assigned@) =~= as_nats(assigned_before).update(
                assign_idx as int,
                (c + 1) as nat,
            ));
            lemma_total_update(as_nats(assigned_before), assign_idx as int, (c + 1) as nat);
            assert forall|u: int|
                0 <= u < was.len() && !keeps(was, nodes, u) && #[trigger] moved_before(
                    was,
                    nodes,
                    u,
                ) < j + 1 implies out@[u]@ == new_owner(was, nodes, u) by {
                if u != vb {
                    if moved_before(was, nodes, u) == j {
                        assert(unassigned@[j as int] == u);
                    }
                    assert(out@[u] == out_before[u]);
                }
            }
        }
        j = j + 1;
    }
    proof {
        assert(texts(out@) =~= new_owners(was, nodes)) by {
            assert forall|u: int| 0 <= u < was.len() implies out@[u]@ == new_owner(
                was,
                nodes,
                u,
            ) by {
                if !keeps(was, nodes, u) {
                    assert(moved_before(was, nodes, u) < unassigned@.len());
                }
            }
        }
    }
    out
}

/// The `count` nodes that follow place `active_idx` around the ring, the place itself left out.
fn ring_after(node_names: &[String], active_idx: usize, count: u8) -> (r: Vec<String>)
    requires
        active_idx < node_names@.len(),
    ensures
        texts(r@) == ring_replicas(texts(node_names@), active_idx as int, count as int),
{
    let ghost nodes = texts(node_names@);
    let n: usize = node_names.len();
    let mut replicas: Vec<String> = Vec::new();
    let mut r: u8 = 0;
    let mut p: usize = active_idx;
    proof {
        assert(texts(replicas@) =~= ring_replicas(nodes, active_idx as int, 0));
        vstd::arithmetic::div_mod::lemma_small_mod(active_idx as nat, n as nat);
    }
    while r < count
        invariant
            r <= count,
            n == node_names@.len(),
            nodes == texts(node_names@),
            active_idx < n,
            p < n,
            p as int == (active_idx + r) % n as int,
            texts(replicas@) == ring_replicas(nodes, active_idx as int, r as int),
        decreases count - r,
    {
        let ghost before = replicas@;
        proof {
            lemma_next_place(active_idx + r, n as int);
        }
        p = if p + 1 == n {
            0
        } else {
            p + 1
        };
        r = r + 1;
        if n > 1 && p != active_idx {
            replicas.push(node_names[p].clone());
            proof {
                assert(texts(replicas@) =~= texts(before).push(nodes[p as int]));
            }
        }
    }
    replicas
}

proof fn lemma_next_place(x: int, n: int)
    requires
        0 <= x,
        n > 0,
    ensures
        (x + 1) % n == if x % n + 1 == n {
            0
        } else {
            x % n + 1
        },
{
    vstd::arithmetic::div_mod::lemma_mod_bound(x, n);
    if x % n + 1 == n {
        vstd::arithmetic::div_mod::lemma_fundamental_div_mod(x, n);
        let q = x / n;
        assert(x + 1 == n * (q + 1)) by (nonlinear_arith)
            requires
                x == n * q + (n - 1),
        ;
        vstd::arithmetic::div_mod::lemma_fundamental_div_mod_converse(x + 1, n, q + 1, 0);
    } else {
        vstd::arithmetic::div_mod::lemma_fundamental_div_mod(x, n);
        let q = x / n;
        let r = x % n;
        assert(x + 1 == q * n + (r + 1)) by (nonlinear_arith)
            requires
                x == n * q + r,
        ;
        vstd::arithmetic::div_mod::lemma_fundamental_div_mod_converse(x + 1, n, q, r + 1);
    }
}

/// The server group of a node.
pub fn group_name(groups: &StrMap<String>, name: &str) -> (r: String)
    requires
        groups.wf(),
    ensures
        r@ == group_of(text_map(groups@), name@),
{
    match groups.get(name) {
        Some(g) => g.clone(),
        None => "Group 1".to_owned(),
    }
}

/// Picks the replicas of a vBucket, from other server groups first.
fn pick_group_replicas(
    node_names: &[String],
    groups: &StrMap<String>,
    active: &str,
    limit: u8,
) -> (r: Vec<String>)
    requires
        groups.wf(),
    ensures
        texts(r@) == group_replicas(texts(node_names@), text_map(groups@), active@, limit as nat),
{
    let ghost nodes = texts(node_names@);
    let n: usize = node_names.len();
    let mut replicas: Vec<String> = Vec::new();
    let mut used: Vec<String> = Vec::new();
    used.push(group_name(groups, active));
    let mut k: usize = 0;
    proof {
        assert(texts(replicas@) =~= spread_replicas(nodes, text_map(groups@), active@, limit as nat, 0));
    }
    while k < n
        invariant
            k <= n,
            n == node_names@.len(),
            nodes == texts(node_names@),
            groups.wf(),
            texts(replicas@) == spread_replicas(nodes, text_map(groups@), active@, limit as nat, k as int),
            used@.len() == replicas@.len() + 1,
            used@[0]@ == group_of(text_map(groups@), active@),
            forall|i: int|
                0 <= i < replicas@.len() ==> (#[trigger] used@[i + 1])@ == group_of(
                    text_map(groups@),
                    replicas@[i]@,
                ),
        decreases n - k,
    {
        let ghost before = replicas@;
        let ghost rest = texts(before);
        if replicas.len() < limit as usize && !same_text(node_names[k].as_str(), active) {
            let group = group_name(groups, node_names[k].as_str());
            let taken = contains_text(&used, group.as_str());
            proof {
                assert(taken == group_used(text_map(groups@), active@, rest, group@)) by {
                    if taken {
                        let i = choose|i: int|
                            0 <= i < texts(used@).len() && texts(used@)[i] == group@;
                        if i > 0 {
                            assert(used@[(i - 1) + 1]@ == group_of(text_map(groups@), before[i - 1]@));
                            assert(group_of(text_map(groups@), rest[i - 1]) == group@);
                        }
                    }
                    if group_used(text_map(groups@), active@, rest, group@) {
                        if group_of(text_map(groups@), active@) == group@ {
                            assert(texts(used@)[0] == group@);
                        } else {
                            let i = choose|i: int|
                                0 <= i < rest.len() && group_of(text_map(groups@), #[trigger] rest[i])
                                    == group@;
                            assert(used@[i + 1]@ == group_of(text_map(groups@), before[i]@));
                            assert(texts(used@)[i + 1] == group@);
                        }
                    }
                }
            }
            if !taken {
                replicas.push(node_names[k].clone());
                used.push(group);
                proof {
                    assert(texts(replicas@) =~= rest.push(nodes[k as int]));
                }
            }
        }
        k = k + 1;
    }
    let ghost picked = texts(replicas@);
    let mut k: usize = 0;
    while k < n
        invariant
            k <= n,
            n == node_names@.len(),
            nodes == texts(node_names@),
            texts(replicas@) == filled_replicas(nodes, picked, active@, limit as nat, k as int),
        decreases n - k,
    {
        let ghost rest = texts(replicas@);
        if replicas.len() < limit as usize && !same_text(node_names[k].as_str(), active)
            && !contains_text(&replicas, node_names[k].as_str()) {
            replicas.push(node_names[k].clone());
            proof {
                assert(texts(replicas@) =~= rest.push(nodes[k as int]));
            }
        }
        k = k + 1;
    }
    replicas
}

/// The transfers from the owners in `map` to the owners `now`.
fn build_transfers(map: &Vec<VBucketOwnership>, now: &Vec<String>) -> (r: Vec<VBucketTransfer>)
    requires
        map@.len() == now@.len(),
        map@.len() <= u16::MAX,
    ensures
        transfer_views(r@) == transfer_list(
            owners(Seq::new(map@.len(), |i: int| map@[i]@)),
            texts(now@),
            map@.len() as int,
        ),
{
    let ghost was = owners(Seq::new(map@.len(), |i: int| map@[i]@));
    let mut transfers: Vec<VBucketTransfer> = Vec::new();
    let mut vb: usize = 0;
    proof {
        assert(transfer_views(transfers@) =~= transfer_list(was, texts(now@), 0));
    }
    while vb < map.len()
        invariant
            vb <= map@.len(),
            map@.len() == now@.len(),
            map@.len() <= u16::MAX,
            was == owners(Seq::new(map@.len(), |i: int| map@[i]@)),
            transfer_views(transfers@) == transfer_list(was, texts(now@), vb as int),
        decreases map@.len() - vb,
    {
        let ghost before = transfers@;
        proof {
            assert(was[vb as int] == map@[vb as int].active_node@);
        }
        if !same_text(map[vb].active_node.as_str(), now[vb].as_str())
            && !map[vb].active_node.as_str().is_empty() {
            transfers.push(
                VBucketTransfer {
                    vbucket_id: vb as u16,
                    from_node: map[vb].active_node.clone(),
                    to_node: now[vb].clone(),
                    status: TransferStatus::Pending,
                },
            );
            proof {
                assert(transfer_views(transfers@) =~= transfer_views(before).push(
                    transfers@.last()@,
                ));
            }
        }
        vb = vb + 1;
    }
    transfers
}

impl View for PartitionMap {
    type V = PartitionMapView;

    open spec fn view(&self) -> PartitionMapView {
        PartitionMapView {
            num_vbuckets: self.num_vbuckets,
            num_replicas: self.num_replicas,
            revision: self.revision,
            map: Seq::new(self.map@.len(), |i: int| self.map@[i]@),
        }
    }
}

impl PartitionMap {
    /// There is one entry for each vBucket.
    pub open spec fn wf(self) -> bool {
        self.map@.len() == self.num_vbuckets
    }

    /// A copy.
    pub fn copy(&self) -> (r: PartitionMap)
        ensures
            r@ == self@,
            r.wf() == self.wf(),
    {
        let mut map: Vec<VBucketOwnership> = Vec::new();
        let mut i: usize = 0;
        while i < self.map.len()
            invariant
                i <= self.map@.len(),
                map@.len() == i,
                forall|k: int| 0 <= k < i ==> map@[k]@ == self.map@[k]@,
            decreases self.map@.len() - i,
        {
            map.push(self.map[i].copy());
            i = i + 1;
        }
        let r = PartitionMap {
            num_vbuckets: self.num_vbuckets,
            num_replicas: self.num_replicas,
            revision: self.revision,
            map,
        };
        assert(r@ =~= self@);
        r
    }

    /// Creates a partition map, dealing the vBuckets out evenly to the given nodes.
    pub fn new(num_vbuckets: u16, num_replicas: u8, node_names: &[String]) -> (r: Self)
        ensures
            r.wf(),
            r@ == PartitionMapView::fresh(num_vbuckets, num_replicas, texts(node_names@)),
    {
        let ghost nodes = texts(node_names@);
        let ghost model = PartitionMapView::fresh(num_vbuckets, num_replicas, nodes);
        let mut map: Vec<VBucketOwnership> = Vec::new();
        let n: usize = node_names.len();
        let mut vb: u16 = 0;
        while vb < num_vbuckets
            invariant
                vb <= num_vbuckets,
                n == node_names@.len(),
                nodes == texts(node_names@),
                model == PartitionMapView::fresh(num_vbuckets, num_replicas, nodes),
                map@.len() == vb,
                forall|k: int| 0 <= k < vb ==> map@[k]@ == model.map[k],
            decreases num_vbuckets - vb,
        {
            if n == 0 {
                let entry = VBucketOwnership {
                    active_node: String::new(),
                    replica_nodes: Vec::new(),
                };
                assert(entry@ =~= model.map[vb as int]);
                map.push(entry);
            } else {
                let active_idx: usize = vb as usize % n;
                let entry = VBucketOwnership {
                    active_node: node_names[active_idx].clone(),
                    replica_nodes: ring_after(node_names, active_idx, num_replicas),
                };
                assert(entry@ =~= model.map[vb as int]);
                map.push(entry);
            }
            vb = vb + 1;
        }
        let r = PartitionMap { num_vbuckets, num_replicas, revision: 1, map };
        assert(r@ =~= model);
        r
    }

    /// Spreads the vBuckets evenly over a new set of nodes and returns the transfers needed.
    pub fn rebalance(&mut self, node_names: &[String]) -> (r: Vec<VBucketTransfer>)
        requires
            old(self).wf(),
            node_names@.len() > 0 ==> old(self).revision < u64::MAX,
        ensures
            final(self).wf(),
            final(self)@ == old(self)@.rebalanced(texts(node_names@)),
            transfer_views(r@) == old(self)@.rebalance_transfers(texts(node_names@)),
    {
        let ghost nodes = texts(node_names@);
        let ghost was = owners(self@.map);
        if node_names.len() == 0 {
            let none: Vec<VBucketTransfer> = Vec::new();
            assert(transfer_views(none@) =~= Seq::empty());
            return none;
        }
        let now = assign_owners(&self.map, node_names);
        assert(texts(now@).len() == now@.len());
        let mut new_map: Vec<VBucketOwnership> = Vec::new();
        let mut vb: usize = 0;
        while vb < now.len()
            invariant
                vb <= now@.len(),
                node_names@.len() > 0,
                nodes == texts(node_names@),
                was == owners(self@.map),
                texts(now@) == new_owners(was, nodes),
                was.len() == now@.len(),
                *self == *old(self),
                new_map@.len() == vb,
                forall|k: int|
                    0 <= k < vb ==> new_map@[k]@ == self@.rebalanced(nodes).map[k],
            decreases now@.len() - vb,
        {
            proof {
                lemma_new_owner_is_a_node(was, nodes, vb as int);
                assert(texts(now@)[vb as int] == now@[vb as int]@);
            }
            let active_idx: usize = match index_of(node_names, now[vb].as_str()) {
                Some(i) => i,
                None => 0,
            };
            let entry = VBucketOwnership {
                active_node: now[vb].clone(),
                replica_nodes: ring_after(node_names, active_idx, self.num_replicas),
            };
            assert(entry@ =~= self@.rebalanced(nodes).map[vb as int]);
            new_map.push(entry);
            vb = vb + 1;
        }
        let transfers = build_transfers(&self.map, &now);
        self.map = new_map;
        self.revision = self.revision + 1;
        assert(self@ =~= old(self)@.rebalanced(nodes));
        transfers
    }

    /// Spreads the vBuckets evenly and puts replicas into different server groups where
    /// possible.
    pub fn rebalance_with_groups(
        &mut self,
        node_names: &[String],
        node_groups: &StrMap<String>,
    ) -> (r: Vec<VBucketTransfer>)
        requires
            old(self).wf(),
            node_names@.len() > 0 ==> old(self).revision < u64::MAX,
            node_groups.wf(),
        ensures
            final(self).wf(),
            final(self)@ == old(self)@.group_rebalanced(texts(node_names@), text_map(node_groups@)),
            transfer_views(r@) == old(self)@.rebalance_transfers(texts(node_names@)),
    {
        let ghost nodes = texts(node_names@);
        let ghost was = owners(self@.map);
        if node_names.len() == 0 {
            let none: Vec<VBucketTransfer> = Vec::new();
            assert(transfer_views(none@) =~= Seq::empty());
            return none;
        }
        let now = assign_owners(&self.map, node_names);
        assert(texts(now@).len() == now@.len());
        let mut new_map: Vec<VBucketOwnership> = Vec::new();
        let mut vb: usize = 0;
        while vb < now.len()
            invariant
                vb <= now@.len(),
                node_names@.len() > 0,
                nodes == texts(node_names@),
                node_groups.wf(),
                was == owners(self@.map),
                texts(now@) == new_owners(was, nodes),
                was.len() == now@.len(),
                *self == *old(self),
                new_map@.len() == vb,
                forall|k: int|
                    0 <= k < vb ==> new_map@[k]@ == self@.group_rebalanced(
                        nodes,
                        text_map(node_groups@),
                    ).map[k],
            decreases now@.len() - vb,
        {
            proof {
                assert(texts(now@)[vb as int] == now@[vb as int]@);
            }
            let entry = VBucketOwnership {
                active_node: now[vb].clone(),
                replica_nodes: pick_group_replicas(
                    node_names,
                    node_groups,
                    now[vb].as_str(),
                    self.num_replicas,
                ),
            };
            assert(entry@ =~= self@.group_rebalanced(nodes, text_map(node_groups@)).map[vb as int]);
            new_map.push(entry);
            vb = vb + 1;
        }
        let transfers = build_transfers(&self.map, &now);
        self.map = new_map;
        self.revision = self.revision + 1;
        assert(self@ =~= old(self)@.group_rebalanced(nodes, text_map(node_groups@)));
        transfers
    }

    /// The active node of a vBucket.
    pub fn get_active_node(&self, vbucket_id: u16) -> (r: Option<&str>)
        ensures
            match r {
                Some(s) => vbucket_id < self@.map.len() && s@ == self@.map[vbucket_id as int].active,
                None => vbucket_id >= self@.map.len(),
            },
    {
        if (vbucket_id as usize) < self.map.len() {
            Some(self.map[vbucket_id as usize].active_node.as_str())
        } else {
            None
        }
    }

    /// The replica nodes of a vBucket; none where there is no such vBucket.
    pub fn get_replica_nodes(&self, vbucket_id: u16) -> (r: Vec<String>)
        ensures
            texts(r@) == if vbucket_id < self@.map.len() {
                self@.map[vbucket_id as int].replicas
            } else {
                Seq::<Seq<char>>::empty()
            },
    {
        if (vbucket_id as usize) < self.map.len() {
            copy_texts(&self.map[vbucket_id as usize].replica_nodes)
        } else {
            let none: Vec<String> = Vec::new();
            assert(texts(none@) =~= Seq::empty());
            none
        }
    }

    /// Whether a node is the active owner of a vBucket.
    pub fn is_active_on(&self, vbucket_id: u16, node_name: &str) -> (r: bool)
        ensures
            r == (vbucket_id < self@.map.len() && self@.map[vbucket_id as int].active
                == node_name@),
    {
        if (vbucket_id as usize) < self.map.len() {
            same_text(self.map[vbucket_id as usize].active_node.as_str(), node_name)
        } else {
            false
        }
    }

    /// All vBuckets that are active on a node.
    pub fn active_vbuckets_for(&self, node_name: &str) -> (r: Vec<u16>)
        requires
            self.wf(),
        ensures
            r@ == self@.active_ids(node_name@, self.num_vbuckets as int),
    {
        let mut ids: Vec<u16> = Vec::new();
        let mut k: usize = 0;
        while k < self.map.len()
            invariant
                k <= self.map@.len(),
                self.wf(),
                ids@ == self@.active_ids(node_name@, k as int),
            decreases self.map@.len() - k,
        {
            assert(self@.map[k as int].active == self.map@[k as int].active_node@);
            if same_text(self.map[k].active_node.as_str(), node_name) {
                ids.push(k as u16);
            }
            k = k + 1;
        }
        ids
    }

    /// All vBuckets of which a node holds a replica.
    pub fn replica_vbuckets_for(&self, node_name: &str) -> (r: Vec<u16>)
        requires
            self.wf(),
        ensures
            r@ == self@.replica_ids(node_name@, self.num_vbuckets as int),
    {
        let mut ids: Vec<u16> = Vec::new();
        let mut k: usize = 0;
        while k < self.map.len()
            invariant
                k <= self.map@.len(),
                self.wf(),
                ids@ == self@.replica_ids(node_name@, k as int),
            decreases self.map@.len() - k,
        {
            assert(self@.map[k as int].replicas == texts(self.map@[k as int].replica_nodes@));
            if contains_text(&self.map[k].replica_nodes, node_name) {
                ids.push(k as u16);
            }
            k = k + 1;
        }
        ids
    }

    /// How often a name is listed among the replicas of a vBucket.
    fn listings(&self, k: usize, name: &str) -> (r: usize)
        requires
            k < self.map@.len(),
        ensures
            r == occurrences(self@.map[k as int].replicas, name@),
    {
        let ghost reps = self@.map[k as int].replicas;
        let list = &self.map[k].replica_nodes;
        let mut c: usize = 0;
        let mut i: usize = 0;
        proof {
            assert(reps.take(0) =~= Seq::<Seq<char>>::empty());
        }
        while i < list.len()
            invariant
                i <= list@.len(),
                c <= i,
                reps == texts(list@),
                c == occurrences(reps.take(i as int), name@),
            decreases list@.len() - i,
        {
            proof {
                assert(reps.take(i + 1).drop_last() =~= reps.take(i as int));
                assert(reps.take(i + 1).last() == list@[i as int]@);
            }
            if same_text(list[i].as_str(), name) {
                c = c + 1;
            }
            i = i + 1;
        }
        assert(reps.take(i as int) =~= reps);
        c
    }

    /// The summary of one node.
    fn node_info(&self, name: &String) -> (r: NodePartitionInfo)
        requires
            self.wf(),
        ensures
            self@.describes(r, name@),
    {
        let active = self.active_vbuckets_for(name.as_str());
        let mut reps: Vec<u16> = Vec::new();
        let mut k: usize = 0;
        while k < self.map.len()
            invariant
                k <= self.map@.len(),
                self.wf(),
                reps@ == self@.replica_listings(name@, k as int),
            decreases self.map@.len() - k,
        {
            let c: usize = self.listings(k, name.as_str());
            let ghost before = reps@;
            let mut i: usize = 0;
            while i < c
                invariant
                    i <= c,
                    k < u16::MAX,
                    reps@ == before + Seq::new(i as nat, |x: int| k as u16),
                decreases c - i,
            {
                reps.push(k as u16);
                i = i + 1;
                assert(reps@ =~= before + Seq::new(i as nat, |x: int| k as u16));
            }
            assert(reps@ =~= before + Seq::new(c as nat, |x: int| ((k + 1) - 1) as u16));
            k = k + 1;
        }
        let active_count: usize = active.len();
        let replica_count: usize = reps.len();
        NodePartitionInfo {
            node_name: name.clone(),
            active_vbuckets: active,
            replica_vbuckets: reps,
            active_count,
            replica_count,
        }
    }

    /// Per-node partition summary, one for each different name, in the order given.
    pub fn get_node_partition_info(&self, node_names: &[String]) -> (r: Vec<NodePartitionInfo>)
        requires
            self.wf(),
        ensures
            r@.len() == first_mentions(texts(node_names@)).len(),
            forall|i: int|
                0 <= i < r@.len() ==> self@.describes(
                    #[trigger] r@[i],
                    first_mentions(texts(node_names@))[i],
                ),
    {
        let ghost nodes = texts(node_names@);
        let mut infos: Vec<NodePartitionInfo> = Vec::new();
        let mut seen: Vec<String> = Vec::new();
        let mut k: usize = 0;
        proof {
            assert(nodes.take(0) =~= Seq::<Seq<char>>::empty());
            assert(texts(seen@) =~= first_mentions(nodes.take(0)));
        }
        while k < node_names.len()
            invariant
                k <= node_names@.len(),
                self.wf(),
                nodes == texts(node_names@),
                texts(seen@) == first_mentions(nodes.take(k as int)),
                infos@.len() == seen@.len(),
                forall|i: int| 0 <= i < infos@.len() ==> self@.describes(#[trigger] infos@[i], seen@[i]@),
            decreases node_names@.len() - k,
        {
            let ghost before = seen@;
            proof {
                assert(nodes.take(k + 1).drop_last() =~= nodes.take(k as int));
                assert(nodes.take(k + 1).last() == node_names@[k as int]@);
            }
            if !contains_text(&seen, node_names[k].as_str()) {
                infos.push(self.node_info(&node_names[k]));
                seen.push(node_names[k].clone());
                assert(texts(seen@) =~= texts(before).push(node_names@[k as int]@));
            }
            k = k + 1;
        }
        assert(nodes.take(k as int) =~= nodes);
        assert(forall|i: int| 0 <= i < seen@.len() ==> texts(seen@)[i] == #[trigger] seen@[i]@);
        infos
    }
}

/// The names of a list, each where it is mentioned first.
pub open spec fn first_mentions(names: Seq<Seq<char>>) -> Seq<Seq<char>>
    decreases names.len(),
{
    if names.len() == 0 {
        Seq::empty()
    } else {
        let rest = first_mentions(names.drop_last());
        if rest.contains(names.last()) {
            rest
        } else {
            rest.push(names.last())
        }
    }
}

impl PartitionMapView {
    /// Whether a summary is the one of the node `name`.
    pub open spec fn describes(self, info: NodePartitionInfo, name: Seq<char>) -> bool {
        &&& info.node_name@ == name
        &&& info.active_vbuckets@ == self.active_ids(name, self.num_vbuckets as int)
        &&& info.replica_vbuckets@ == self.replica_listings(name, self.num_vbuckets as int)
        &&& info.active_count == info.active_vbuckets@.len()
        &&& info.replica_count == info.replica_vbuckets@.len()
    }
}

// ---- Laws ----

proof fn lemma_occurrences_monotone(s: Seq<Seq<char>>, name: Seq<char>, a: int, b: int)
    requires
        0 <= a <= b <= s.len(),
    ensures
        occurrences(s.take(a), name) <= occurrences(s.take(b), name),
    decreases b - a,
{
    if a < b {
        lemma_occurrences_monotone(s, name, a, b - 1);
        assert(s.take(b).drop_last() =~= s.take(b - 1));
    }
}

proof fn lemma_distinct_last_index(nodes: Seq<Seq<char>>, i: int)
    requires
        nodes.no_duplicates(),
        0 <= i < nodes.len(),
    ensures
        last_index(nodes, nodes[i]) == Some(i),
{
    lemma_last_index(nodes, nodes[i]);
}

/// The number of ids listed as active on a node is the number of vBuckets that it owns.
pub proof fn law_active_ids_count(m: PartitionMapView, name: Seq<char>, k: int)
    requires
        0 <= k <= m.map.len(),
    ensures
        m.active_ids(name, k).len() == occurrences(owners(m.map).take(k), name),
    decreases k,
{
    if k > 0 {
        law_active_ids_count(m, name, k - 1);
        assert(owners(m.map).take(k).drop_last() =~= owners(m.map).take(k - 1));
    } else {
        assert(owners(m.map).take(0) =~= Seq::<Seq<char>>::empty());
    }
}

proof fn lemma_target_step(k: nat, n: nat, i: int)
    requires
        n > 0,
        0 <= i < n,
    ensures
        target(k + 1, n, i) == target(k, n, i) + if k % n == i {
            1nat
        } else {
            0nat
        },
{
    lemma_next_place(k as int, n as int);
    vstd::arithmetic::div_mod::lemma_fundamental_div_mod(k as int, n as int);
    vstd::arithmetic::div_mod::lemma_mod_bound(k as int, n as int);
    let q = k as int / n as int;
    let r = k as int % n as int;
    if r + 1 == n {
        assert(k + 1 == (q + 1) * n + 0) by (nonlinear_arith)
            requires
                k == n * q + r,
                r + 1 == n,
        ;
        vstd::arithmetic::div_mod::lemma_fundamental_div_mod_converse(
            (k + 1) as int,
            n as int,
            q + 1,
            0,
        );
    } else {
        assert(k + 1 == q * n + (r + 1)) by (nonlinear_arith)
            requires
                k == n * q + r,
        ;
        vstd::arithmetic::div_mod::lemma_fundamental_div_mod_converse(
            (k + 1) as int,
            n as int,
            q,
            r + 1,
        );
    }
}

proof fn lemma_fresh_prefix(m: PartitionMapView, nodes: Seq<Seq<char>>, i: int, k: int)
    requires
        m == PartitionMapView::fresh(m.num_vbuckets, m.num_replicas, nodes),
        nodes.no_duplicates(),
        0 <= i < nodes.len(),
        0 <= k <= m.num_vbuckets,
    ensures
        occurrences(owners(m.map).take(k), nodes[i]) == target(k as nat, nodes.len(), i),
    decreases k,
{
    let own = owners(m.map);
    if k == 0 {
        assert(own.take(0) =~= Seq::<Seq<char>>::empty());
        vstd::arithmetic::div_mod::lemma_small_mod(0, nodes.len());
        assert(0nat / nodes.len() == 0) by (nonlinear_arith)
            requires
                nodes.len() > 0,
        ;
    } else {
        lemma_fresh_prefix(m, nodes, i, k - 1);
        lemma_target_step((k - 1) as nat, nodes.len(), i);
        assert(own.take(k).drop_last() =~= own.take(k - 1));
        vstd::arithmetic::div_mod::lemma_mod_bound(k - 1, nodes.len() as int);
        let a = (k - 1) % nodes.len() as int;
        assert(own.take(k).last() == nodes[a]);
    }
}

/// A new map gives every node its even share of the vBuckets.
pub proof fn law_fresh_map_is_even(
    num_vbuckets: u16,
    num_replicas: u8,
    nodes: Seq<Seq<char>>,
    i: int,
)
    requires
        nodes.no_duplicates(),
        0 <= i < nodes.len(),
    ensures
        occurrences(
            owners(PartitionMapView::fresh(num_vbuckets, num_replicas, nodes).map),
            nodes[i],
        ) == target(num_vbuckets as nat, nodes.len(), i),
{
    let m = PartitionMapView::fresh(num_vbuckets, num_replicas, nodes);
    lemma_fresh_prefix(m, nodes, i, num_vbuckets as int);
    assert(owners(m.map).take(num_vbuckets as int) =~= owners(m.map));
}

/// How many of the first `j` moved vBuckets go to the node at place `i`.
spec fn taken(need: Seq<nat>, j: int, i: int) -> int {
    let start = total_of(need.take(i)) as int;
    if j <= start {
        0
    } else if j >= start + need[i] {
        need[i] as int
    } else {
        j - start
    }
}

proof fn lemma_even_prefix(was: Seq<Seq<char>>, nodes: Seq<Seq<char>>, i: int, vb: int)
    requires
        nodes.no_duplicates(),
        0 <= i < nodes.len(),
        0 <= vb <= was.len(),
    ensures
        occurrences(new_owners(was, nodes).take(vb), nodes[i]) == kept_before(was, nodes, vb, i)
            + taken(needs(was, nodes), moved_before(was, nodes, vb) as int, i),
    decreases vb,
{
    let now = new_owners(was, nodes);
    let need = needs(was, nodes);
    lemma_distinct_last_index(nodes, i);
    if vb == 0 {
        assert(now.take(0) =~= Seq::<Seq<char>>::empty());
        assert(was.take(0) =~= Seq::<Seq<char>>::empty());
    } else {
        let u = vb - 1;
        lemma_even_prefix(was, nodes, i, u);
        lemma_kept_step(was, nodes, u);
        lemma_last_index(nodes, was[u]);
        assert(now.take(vb).drop_last() =~= now.take(u));
        assert(now.take(vb).last() == new_owner(was, nodes, u));
        assert(kept_counts(was, nodes, vb)[i] == kept_before(was, nodes, vb, i));
        assert(kept_counts(was, nodes, u)[i] == kept_before(was, nodes, u, i));
        if keeps(was, nodes, u) {
            let w = last_index(nodes, was[u])->0;
            assert(nodes[w] == was[u]);
        } else {
            let j = moved_before(was, nodes, u) as int;
            lemma_needs_total(was, nodes);
            lemma_moved_monotone(was, nodes, vb, was.len() as int);
            assert(need.take(0) =~= Seq::<nat>::empty());
            lemma_taker_in_range(need, 0, j);
            let t = taker(need, 0, j);
            lemma_total_prefix(need, i);
            lemma_total_prefix(need, t);
            if t == i {
            } else {
                assert(nodes[t] != nodes[i]);
                if t < i {
                    lemma_total_prefix_le(need, t + 1, i);
                } else {
                    lemma_total_prefix_le(need, i + 1, t);
                }
            }
        }
    }
}

/// A rebalance gives every node its even share of the vBuckets, wherever they were before.
pub proof fn law_rebalance_is_even(m: PartitionMapView, nodes: Seq<Seq<char>>, i: int)
    requires
        nodes.no_duplicates(),
        0 <= i < nodes.len(),
    ensures
        occurrences(owners(m.rebalanced(nodes).map), nodes[i]) == target(
            m.map.len(),
            nodes.len(),
            i,
        ),
{
    let was = owners(m.map);
    lemma_owners_even(was, nodes, i);
    assert(owners(m.rebalanced(nodes).map) =~= new_owners(was, nodes));
}

proof fn lemma_owners_even(was: Seq<Seq<char>>, nodes: Seq<Seq<char>>, i: int)
    requires
        nodes.no_duplicates(),
        0 <= i < nodes.len(),
    ensures
        occurrences(new_owners(was, nodes), nodes[i]) == target(was.len(), nodes.len(), i),
{
    let need = needs(was, nodes);
    lemma_even_prefix(was, nodes, i, was.len() as int);
    assert(new_owners(was, nodes).take(was.len() as int) =~= new_owners(was, nodes));
    lemma_needs_total(was, nodes);
    lemma_total_prefix(need, i);
    lemma_total_prefix_le(need, i + 1, need.len() as int);
    assert(need.take(need.len() as int) =~= need);
}

/// Server groups influence replicas alone: the group-aware rebalance gives every vBucket the owner
/// that the plain one gives it, and comes to the same revision. The transfers that both return are
/// those that lead to the owners of either map. Without nodes, neither changes anything.
pub proof fn law_groups_influence_replicas_only(
    m: PartitionMapView,
    nodes: Seq<Seq<char>>,
    groups: Map<Seq<char>, Seq<char>>,
)
    ensures
        ({
            let plain = m.rebalanced(nodes);
            let grouped = m.group_rebalanced(nodes, groups);
            &&& grouped.revision == plain.revision
            &&& grouped.num_vbuckets == plain.num_vbuckets
            &&& grouped.num_replicas == plain.num_replicas
            &&& grouped.map.len() == plain.map.len()
            &&& forall|vb: int|
                0 <= vb < plain.map.len() ==> (#[trigger] grouped.map[vb]).active
                    == plain.map[vb].active
            &&& m.rebalance_transfers(nodes) == transfer_list(
                owners(m.map),
                owners(plain.map),
                m.map.len() as int,
            )
            &&& m.rebalance_transfers(nodes) == transfer_list(
                owners(m.map),
                owners(grouped.map),
                m.map.len() as int,
            )
            &&& nodes.len() == 0 ==> grouped == m && plain == m
        }),
{
    let was = owners(m.map);
    assert(owners(m.group_rebalanced(nodes, groups).map) =~= owners(m.rebalanced(nodes).map));
    if nodes.len() == 0 {
        lemma_no_transfers(was, was.len() as int);
    } else {
        assert(owners(m.rebalanced(nodes).map) =~= new_owners(was, nodes));
    }
}

/// The shares of two nodes differ by at most one vBucket.
pub proof fn law_shares_differ_by_at_most_one(total: nat, n: nat, i: int, j: int)
    requires
        n > 0,
        0 <= i < n,
        0 <= j < n,
    ensures
        target(total, n, i) <= target(total, n, j) + 1,
{
}

/// A vBucket changes its owner in a rebalance exactly when the owner is gone or already
/// owns its share among the vBuckets before it.
pub proof fn law_rebalance_moves_no_more_than_needed(
    m: PartitionMapView,
    nodes: Seq<Seq<char>>,
    vb: int,
)
    requires
        nodes.no_duplicates(),
        nodes.len() > 0,
        0 <= vb < m.map.len(),
    ensures
        (m.rebalanced(nodes).map[vb].active != m.map[vb].active) == !keeps(
            owners(m.map),
            nodes,
            vb,
        ),
{
    let was = owners(m.map);
    if !keeps(was, nodes, vb) {
        let need = needs(was, nodes);
        let j = moved_before(was, nodes, vb) as int;
        lemma_needs_total(was, nodes);
        lemma_moved_monotone(was, nodes, vb + 1, was.len() as int);
        assert(need.take(0) =~= Seq::<nat>::empty());
        lemma_taker_in_range(need, 0, j);
        let t = taker(need, 0, j);
        lemma_total_prefix(need, t);
        if nodes[t] == was[vb] {
            lemma_distinct_last_index(nodes, t);
            lemma_occurrences_monotone(was, was[vb], vb, was.len() as int);
            assert(need[t] == 0);
        }
    }
}

/// How many of the first `k` vBuckets have another owner in `now` than in `was`.
pub open spec fn changes(was: Seq<Seq<char>>, now: Seq<Seq<char>>, k: int) -> nat
    decreases k,
{
    if k <= 0 {
        0
    } else {
        changes(was, now, k - 1) + if was[k - 1] != now[k - 1] {
            1nat
        } else {
            0nat
        }
    }
}

/// How many of the first `k` vBuckets a node owns in both `was` and `now`.
spec fn stays(was: Seq<Seq<char>>, now: Seq<Seq<char>>, node: Seq<char>, k: int) -> nat
    decreases k,
{
    if k <= 0 {
        0
    } else {
        stays(was, now, node, k - 1) + if was[k - 1] == node && now[k - 1] == node {
            1nat
        } else {
            0nat
        }
    }
}

spec fn stay_counts(
    was: Seq<Seq<char>>,
    now: Seq<Seq<char>>,
    nodes: Seq<Seq<char>>,
    k: int,
) -> Seq<nat> {
    Seq::new(nodes.len(), |i: int| stays(was, now, nodes[i], k))
}

proof fn lemma_stays_bounded(was: Seq<Seq<char>>, now: Seq<Seq<char>>, node: Seq<char>, k: int)
    requires
        0 <= k <= was.len(),
        was.len() == now.len(),
    ensures
        stays(was, now, node, k) <= occurrences(was.take(k), node),
        stays(was, now, node, k) <= occurrences(now.take(k), node),
    decreases k,
{
    if k > 0 {
        lemma_stays_bounded(was, now, node, k - 1);
        assert(was.take(k).drop_last() =~= was.take(k - 1));
        assert(now.take(k).drop_last() =~= now.take(k - 1));
    }
}

/// Every vBucket either changes its owner or stays with one of the nodes.
proof fn lemma_stay_total(
    was: Seq<Seq<char>>,
    now: Seq<Seq<char>>,
    nodes: Seq<Seq<char>>,
    k: int,
)
    requires
        nodes.no_duplicates(),
        0 <= k <= was.len(),
        was.len() == now.len(),
        forall|vb: int| 0 <= vb < now.len() ==> nodes.contains(#[trigger] now[vb]),
    ensures
        total_of(stay_counts(was, now, nodes, k)) + changes(was, now, k) == k,
    decreases k,
{
    let b = stay_counts(was, now, nodes, k);
    if k == 0 {
        lemma_total_zero(b);
    } else {
        lemma_stay_total(was, now, nodes, k - 1);
        let a = stay_counts(was, now, nodes, k - 1);
        if was[k - 1] == now[k - 1] {
            assert(nodes.contains(now[k - 1]));
            let w = choose|w: int| 0 <= w < nodes.len() && nodes[w] == now[k - 1];
            lemma_total_update(a, w, (a[w] + 1) as nat);
            assert(b =~= a.update(w, (a[w] + 1) as nat));
        } else {
            assert(b =~= a);
        }
    }
}

proof fn lemma_total_le(a: Seq<nat>, b: Seq<nat>)
    requires
        a.len() == b.len(),
        forall|i: int| 0 <= i < a.len() ==> #[trigger] a[i] <= b[i],
    ensures
        total_of(a) <= total_of(b),
    decreases a.len(),
{
    if a.len() > 0 {
        lemma_total_le(a.drop_last(), b.drop_last());
    }
}

proof fn lemma_changes_are_the_moved(m: PartitionMapView, nodes: Seq<Seq<char>>, k: int)
    requires
        nodes.no_duplicates(),
        nodes.len() > 0,
        0 <= k <= m.map.len(),
    ensures
        changes(owners(m.map), owners(m.rebalanced(nodes).map), k) == moved_before(
            owners(m.map),
            nodes,
            k,
        ),
    decreases k,
{
    if k > 0 {
        lemma_changes_are_the_moved(m, nodes, k - 1);
        law_rebalance_moves_no_more_than_needed(m, nodes, k - 1);
    }
}

/// No way of giving every node its share moves fewer vBuckets than a rebalance does.
pub proof fn law_no_even_spread_moves_fewer(
    m: PartitionMapView,
    nodes: Seq<Seq<char>>,
    other: Seq<Seq<char>>,
)
    requires
        nodes.no_duplicates(),
        nodes.len() > 0,
        other.len() == m.map.len(),
        forall|vb: int| 0 <= vb < other.len() ==> nodes.contains(#[trigger] other[vb]),
        forall|i: int|
            0 <= i < nodes.len() ==> occurrences(other, #[trigger] nodes[i]) == target(
                m.map.len(),
                nodes.len(),
                i,
            ),
    ensures
        changes(owners(m.map), owners(m.rebalanced(nodes).map), m.map.len() as int) <= changes(
            owners(m.map),
            other,
            m.map.len() as int,
        ),
{
    let was = owners(m.map);
    let n = m.map.len() as int;
    lemma_changes_are_the_moved(m, nodes, n);
    lemma_kept_total(was, nodes, n);
    lemma_stay_total(was, other, nodes, n);
    let stay = stay_counts(was, other, nodes, n);
    let kept = kept_counts(was, nodes, n);
    assert forall|i: int| 0 <= i < stay.len() implies #[trigger] stay[i] <= kept[i] by {
        lemma_stays_bounded(was, other, nodes[i], n);
        lemma_distinct_last_index(nodes, i);
        assert(other.take(n) =~= other);
    }
    lemma_total_le(stay, kept);
}

/// A second rebalance over the same nodes moves nothing.
pub proof fn law_rebalance_settles(m: PartitionMapView, nodes: Seq<Seq<char>>)
    requires
        nodes.no_duplicates(),
    ensures
        m.rebalanced(nodes).rebalanced(nodes).map == m.rebalanced(nodes).map,
        m.rebalanced(nodes).rebalance_transfers(nodes) == Seq::<TransferView>::empty(),
{
    if nodes.len() > 0 {
        let once = m.rebalanced(nodes);
        let was = owners(m.map);
        let now = owners(once.map);
        assert(now =~= new_owners(was, nodes));
        assert forall|vb: int| 0 <= vb < now.len() implies new_owner(now, nodes, vb)
            == now[vb] by {
            lemma_new_owner_is_a_node(was, nodes, vb);
            let i = last_index(nodes, now[vb])->0;
            lemma_last_index(nodes, now[vb]);
            lemma_owners_even(was, nodes, i);
            lemma_occurrences_monotone(now, now[vb], vb + 1, now.len() as int);
            assert(now.take(now.len() as int) =~= now);
            assert(now.take(vb + 1).drop_last() =~= now.take(vb));
            assert(keeps(now, nodes, vb));
        }
        assert(new_owners(now, nodes) =~= now);
        assert(once.rebalanced(nodes).map =~= once.map);
        lemma_no_transfers(now, now.len() as int);
    }
}

proof fn lemma_no_transfers(was: Seq<Seq<char>>, k: int)
    ensures
        transfer_list(was, was, k) == Seq::<TransferView>::empty(),
    decreases k,
{
    if k > 0 {
        lemma_no_transfers(was, k - 1);
    }
}

proof fn lemma_transfer_list(was: Seq<Seq<char>>, now: Seq<Seq<char>>, k: int)
    requires
        0 <= k <= was.len(),
        was.len() == now.len(),
        was.len() <= u16::MAX,
    ensures
        forall|i: int|
            0 <= i < transfer_list(was, now, k).len() ==> {
                let t = #[trigger] transfer_list(was, now, k)[i];
                &&& t.vbucket_id < k
                &&& was[t.vbucket_id as int] != now[t.vbucket_id as int]
                &&& t.from_node == was[t.vbucket_id as int]
                &&& t.to_node == now[t.vbucket_id as int]
                &&& t.from_node.len() > 0
                &&& t.status == TransferStatus::Pending
            },
        forall|i: int, j: int|
            0 <= i < j < transfer_list(was, now, k).len() ==> (#[trigger] transfer_list(
                was,
                now,
                k,
            )[i]).vbucket_id < (#[trigger] transfer_list(was, now, k)[j]).vbucket_id,
        forall|vb: int|
            0 <= vb < k && was[vb] != now[vb] && was[vb].len() > 0 ==> exists|i: int|
                0 <= i < transfer_list(was, now, k).len() && (#[trigger] transfer_list(
                    was,
                    now,
                    k,
                )[i]).vbucket_id == vb,
    decreases k,
{
    if k > 0 {
        lemma_transfer_list(was, now, k - 1);
        let rest = transfer_list(was, now, k - 1);
        let list = transfer_list(was, now, k);
        assert forall|vb: int|
            0 <= vb < k && was[vb] != now[vb] && was[vb].len() > 0 implies exists|i: int|
            0 <= i < list.len() && (#[trigger] list[i]).vbucket_id == vb by {
            if vb == k - 1 {
                assert(list.last().vbucket_id == vb);
            } else {
                let i = choose|i: int| 0 <= i < rest.len() && (#[trigger] rest[i]).vbucket_id == vb;
                assert(list[i] == rest[i]);
            }
        }
    }
}

/// The transfers that a rebalance returns name exactly the vBuckets that had an owner and
/// got another, each once and in the order of their ids, from the old to the new owner.
pub proof fn law_transfers_are_the_moves(m: PartitionMapView, nodes: Seq<Seq<char>>)
    requires
        nodes.len() > 0,
        m.map.len() == m.num_vbuckets,
    ensures
        forall|i: int|
            0 <= i < m.rebalance_transfers(nodes).len() ==> {
                let t = #[trigger] m.rebalance_transfers(nodes)[i];
                &&& t.vbucket_id < m.num_vbuckets
                &&& t.from_node == m.map[t.vbucket_id as int].active
                &&& t.to_node == m.rebalanced(nodes).map[t.vbucket_id as int].active
                &&& t.from_node != t.to_node
                &&& t.from_node.len() > 0
            },
        forall|i: int, j: int|
            0 <= i < j < m.rebalance_transfers(nodes).len() ==> (#[trigger] m.rebalance_transfers(
                nodes,
            )[i]).vbucket_id < (#[trigger] m.rebalance_transfers(nodes)[j]).vbucket_id,
        forall|vb: int|
            0 <= vb < m.map.len() && m.map[vb].active != m.rebalanced(nodes).map[vb].active
                && m.map[vb].active.len() > 0 ==> exists|i: int|
                0 <= i < m.rebalance_transfers(nodes).len() && (#[trigger] m.rebalance_transfers(
                    nodes,
                )[i]).vbucket_id == vb,
{
    let was = owners(m.map);
    lemma_transfer_list(was, new_owners(was, nodes), was.len() as int);
    assert forall|vb: int|
        0 <= vb < m.map.len() && m.map[vb].active != m.rebalanced(nodes).map[vb].active
            && m.map[vb].active.len() > 0 implies exists|i: int|
        0 <= i < m.rebalance_transfers(nodes).len() && (#[trigger] m.rebalance_transfers(
            nodes,
        )[i]).vbucket_id == vb by {
        assert(was[vb] == m.map[vb].active);
        assert(new_owners(was, nodes)[vb] == m.rebalanced(nodes).map[vb].active);
    }
}

proof fn lemma_ring_excludes(nodes: Seq<Seq<char>>, a: int, r: int)
    requires
        nodes.no_duplicates(),
        0 <= a < nodes.len(),
    ensures
        forall|i: int|
            0 <= i < ring_replicas(nodes, a, r).len() ==> (#[trigger] ring_replicas(nodes, a, r)[i])
                != nodes[a] && nodes.contains(ring_replicas(nodes, a, r)[i]),
    decreases r,
{
    if r > 0 {
        lemma_ring_excludes(nodes, a, r - 1);
        vstd::arithmetic::div_mod::lemma_mod_bound(a + r, nodes.len() as int);
        let p = (a + r) % nodes.len() as int;
        assert(nodes.contains(nodes[p]));
        let rest = ring_replicas(nodes, a, r - 1);
        let list = ring_replicas(nodes, a, r);
        assert forall|i: int| 0 <= i < list.len() implies (#[trigger] list[i]) != nodes[a]
            && nodes.contains(list[i]) by {
            if i < rest.len() {
                assert(list[i] == rest[i]);
            }
        }
    }
}

/// After a rebalance every vBucket is owned by one of the nodes, and its replicas are other
/// nodes of the list.
pub proof fn law_replicas_are_other_nodes(m: PartitionMapView, nodes: Seq<Seq<char>>, vb: int)
    requires
        nodes.no_duplicates(),
        nodes.len() > 0,
        0 <= vb < m.map.len(),
    ensures
        nodes.contains(m.rebalanced(nodes).map[vb].active),
        forall|i: int|
            0 <= i < m.rebalanced(nodes).map[vb].replicas.len() ==> (#[trigger] m.rebalanced(
                nodes,
            ).map[vb].replicas[i]) != m.rebalanced(nodes).map[vb].active && nodes.contains(
                m.rebalanced(nodes).map[vb].replicas[i],
            ),
{
    let was = owners(m.map);
    lemma_new_owner_is_a_node(was, nodes, vb);
    let now = new_owner(was, nodes, vb);
    lemma_last_index(nodes, now);
    lemma_ring_excludes(nodes, last_index(nodes, now)->0, m.num_replicas as int);
}

proof fn lemma_spread(
    nodes: Seq<Seq<char>>,
    groups: Map<Seq<char>, Seq<char>>,
    active: Seq<char>,
    limit: nat,
    k: int,
)
    requires
        0 <= k <= nodes.len(),
    ensures
        spread_replicas(nodes, groups, active, limit, k).len() <= limit,
        forall|i: int|
            0 <= i < spread_replicas(nodes, groups, active, limit, k).len() ==> {
                let x = #[trigger] spread_replicas(nodes, groups, active, limit, k)[i];
                nodes.contains(x) && x != active && group_of(groups, x) != group_of(groups, active)
            },
        forall|i: int, j: int|
            0 <= i < j < spread_replicas(nodes, groups, active, limit, k).len() ==> group_of(
                groups,
                #[trigger] spread_replicas(nodes, groups, active, limit, k)[i],
            ) != group_of(
                groups,
                #[trigger] spread_replicas(nodes, groups, active, limit, k)[j],
            ),
        forall|x: int|
            0 <= x < k && spread_replicas(nodes, groups, active, limit, k).len() < limit
                && #[trigger] nodes[x] != active ==> group_used(
                groups,
                active,
                spread_replicas(nodes, groups, active, limit, k),
                group_of(groups, nodes[x]),
            ),
    decreases k,
{
    if k > 0 {
        lemma_spread(nodes, groups, active, limit, k - 1);
        let rest = spread_replicas(nodes, groups, active, limit, k - 1);
        let list = spread_replicas(nodes, groups, active, limit, k);
        assert(nodes.contains(nodes[k - 1]));
        assert forall|x: int|
            0 <= x < k && list.len() < limit && #[trigger] nodes[x] != active implies group_used(
            groups,
            active,
            list,
            group_of(groups, nodes[x]),
        ) by {
            let g = group_of(groups, nodes[x]);
            if x < k - 1 && group_of(groups, active) != g {
                assert(rest.len() <= list.len());
                assert(group_used(groups, active, rest, g));
                let i = choose|i: int| 0 <= i < rest.len() && group_of(groups, #[trigger] rest[i]) == g;
                assert(list[i] == rest[i]);
            }
            if x == k - 1 {
                if list.len() > rest.len() {
                    assert(group_of(groups, list[rest.len() as int]) == g);
                }
            }
        }
    }
}

proof fn lemma_filled(
    nodes: Seq<Seq<char>>,
    picked: Seq<Seq<char>>,
    active: Seq<char>,
    limit: nat,
    k: int,
)
    requires
        0 <= k <= nodes.len(),
        picked.len() <= limit,
        picked.no_duplicates(),
        forall|i: int| 0 <= i < picked.len() ==> nodes.contains(#[trigger] picked[i]) && picked[i] != active,
    ensures
        picked.len() <= filled_replicas(nodes, picked, active, limit, k).len() <= limit,
        filled_replicas(nodes, picked, active, limit, k).no_duplicates(),
        forall|i: int|
            0 <= i < picked.len() ==> (#[trigger] filled_replicas(nodes, picked, active, limit, k)[i])
                == picked[i],
        forall|i: int|
            0 <= i < filled_replicas(nodes, picked, active, limit, k).len() ==> {
                let x = #[trigger] filled_replicas(nodes, picked, active, limit, k)[i];
                nodes.contains(x) && x != active
            },
        forall|x: int|
            0 <= x < k && filled_replicas(nodes, picked, active, limit, k).len() < limit
                && #[trigger] nodes[x] != active ==> filled_replicas(
                nodes,
                picked,
                active,
                limit,
                k,
            ).contains(nodes[x]),
    decreases k,
{
    if k > 0 {
        lemma_filled(nodes, picked, active, limit, k - 1);
        let rest = filled_replicas(nodes, picked, active, limit, k - 1);
        let list = filled_replicas(nodes, picked, active, limit, k);
        assert(nodes.contains(nodes[k - 1]));
        assert forall|x: int|
            0 <= x < k && list.len() < limit && #[trigger] nodes[x] != active implies list.contains(
            nodes[x],
        ) by {
            if x < k - 1 {
                let i = choose|i: int| 0 <= i < rest.len() && rest[i] == nodes[x];
                assert(rest.contains(nodes[x]));
                assert(list[i] == rest[i]);
            } else {
                if list.len() > rest.len() {
                    assert(list[rest.len() as int] == nodes[x]);
                } else {
                    assert(rest.contains(nodes[x]));
                }
            }
        }
    }
}

/// The replicas that the group-aware rebalance picks are different nodes, none of them the
/// owner and no more than asked for; where they are fewer, every other node is one of them.
pub proof fn law_group_replicas_are_different_nodes(
    nodes: Seq<Seq<char>>,
    groups: Map<Seq<char>, Seq<char>>,
    active: Seq<char>,
    limit: nat,
)
    ensures
        group_replicas(nodes, groups, active, limit).len() <= limit,
        group_replicas(nodes, groups, active, limit).no_duplicates(),
        forall|i: int|
            0 <= i < group_replicas(nodes, groups, active, limit).len() ==> {
                let x = #[trigger] group_replicas(nodes, groups, active, limit)[i];
                nodes.contains(x) && x != active
            },
        forall|x: int|
            0 <= x < nodes.len() && group_replicas(nodes, groups, active, limit).len() < limit
                && #[trigger] nodes[x] != active ==> group_replicas(
                nodes,
                groups,
                active,
                limit,
            ).contains(nodes[x]),
{
    let n = nodes.len() as int;
    lemma_spread(nodes, groups, active, limit, n);
    let picked = spread_replicas(nodes, groups, active, limit, n);
    assert(picked.no_duplicates());
    lemma_filled(nodes, picked, active, limit, n);
}

/// Replicas go to different server groups as long as there are any: the first of them are in
/// groups of their own, none of them the group of the owner, and only when every group in
/// the cluster is used do further replicas share one.
pub proof fn law_group_replicas_spread_over_groups(
    nodes: Seq<Seq<char>>,
    groups: Map<Seq<char>, Seq<char>>,
    active: Seq<char>,
    limit: nat,
)
    ensures
        ({
            let all = group_replicas(nodes, groups, active, limit);
            let spread = spread_replicas(nodes, groups, active, limit, nodes.len() as int);
            &&& spread.len() <= all.len()
            &&& forall|i: int| 0 <= i < spread.len() ==> #[trigger] all[i] == spread[i]
            &&& forall|i: int|
                0 <= i < spread.len() ==> group_of(groups, #[trigger] all[i]) != group_of(
                    groups,
                    active,
                )
            &&& forall|i: int, j: int|
                0 <= i < j < spread.len() ==> group_of(groups, #[trigger] all[i]) != group_of(
                    groups,
                    #[trigger] all[j],
                )
            &&& spread.len() < limit ==> forall|x: int|
                0 <= x < nodes.len() && #[trigger] nodes[x] != active ==> group_used(
                    groups,
                    active,
                    spread,
                    group_of(groups, nodes[x]),
                )
        }),
{
    let n = nodes.len() as int;
    lemma_spread(nodes, groups, active, limit, n);
    let picked = spread_replicas(nodes, groups, active, limit, n);
    assert(picked.no_duplicates());
    lemma_filled(nodes, picked, active, limit, n);
}

/// The server groups that hold the owner or one of the replicas.
pub open spec fn groups_covered(
    groups: Map<Seq<char>, Seq<char>>,
    active: Seq<char>,
    replicas: Seq<Seq<char>>,
) -> Set<Seq<char>> {
    replicas.map_values(|x: Seq<char>| group_of(groups, x)).to_set().insert(
        group_of(groups, active),
    )
}

/// No choice of as many replicas among the nodes covers more server groups than the one that the
/// group-aware rebalance makes.
pub proof fn law_replicas_cover_the_most_groups(
    nodes: Seq<Seq<char>>,
    groups: Map<Seq<char>, Seq<char>>,
    active: Seq<char>,
    limit: nat,
    other: Seq<Seq<char>>,
)
    requires
        other.len() <= limit,
        forall|i: int| 0 <= i < other.len() ==> nodes.contains(#[trigger] other[i]),
    ensures
        groups_covered(groups, active, other).len() <= groups_covered(
            groups,
            active,
            group_replicas(nodes, groups, active, limit),
        ).len(),
{
    law_group_replicas_spread_over_groups(nodes, groups, active, limit);
    let all = group_replicas(nodes, groups, active, limit);
    let spread = spread_replicas(nodes, groups, active, limit, nodes.len() as int);
    lemma_spread(nodes, groups, active, limit, nodes.len() as int);
    let group = |x: Seq<char>| group_of(groups, x);
    let mine = group_of(groups, active);
    let theirs = other.map_values(group);
    let chosen = all.map_values(group);
    let first = spread.map_values(group);
    theirs.lemma_cardinality_of_set();
    chosen.lemma_cardinality_of_set();
    first.lemma_cardinality_of_set();
    vstd::seq_lib::seq_to_set_is_finite(theirs);
    vstd::seq_lib::seq_to_set_is_finite(chosen);
    vstd::seq_lib::seq_to_set_is_finite(first);
    assert(first.to_set().subset_of(chosen.to_set())) by {
        assert forall|g: Seq<char>| first.to_set().contains(g) implies chosen.to_set().contains(g) by {
            let i = choose|i: int| 0 <= i < first.len() && first[i] == g;
            assert(all[i] == spread[i]);
            assert(chosen[i] == g);
        }
    }
    if spread.len() < limit {
        assert forall|g: Seq<char>| groups_covered(groups, active, other).contains(
            g,
        ) implies groups_covered(groups, active, all).contains(g) by {
            if g != mine {
                let i = choose|i: int| 0 <= i < theirs.len() && theirs[i] == g;
                assert(nodes.contains(other[i]));
                let x = choose|x: int| 0 <= x < nodes.len() && nodes[x] == other[i];
                assert(nodes[x] != active);
                assert(group_used(groups, active, spread, group_of(groups, nodes[x])));
                let j = choose|j: int|
                    0 <= j < spread.len() && group_of(groups, #[trigger] spread[j]) == g;
                assert(first[j] == g);
                assert(first.to_set().contains(g));
            }
        }
        vstd::set_lib::lemma_len_subset(
            groups_covered(groups, active, other),
            groups_covered(groups, active, all),
        );
    } else {
        assert(first.no_duplicates()) by {
            assert forall|i: int, j: int| 0 <= i < first.len() && 0 <= j < first.len() && i
                != j implies first[i] != first[j] by {
                assert(first[i] == group_of(groups, all[i]));
                assert(first[j] == group_of(groups, all[j]));
            }
        }
        first.unique_seq_to_set();
        assert(!first.to_set().contains(mine)) by {
            if first.to_set().contains(mine) {
                let i = choose|i: int| 0 <= i < first.len() && first[i] == mine;
                assert(group_of(groups, all[i]) != mine);
            }
        }
        vstd::set_lib::lemma_len_subset(
            first.to_set().insert(mine),
            groups_covered(groups, active, all),
        );
    }
}

/// The shares add up to all vBuckets, and no later node gets more than an earlier one.
pub proof fn law_shares_add_up(total: nat, n: nat, i: int, j: int)
    requires
        n > 0,
        0 <= i <= j < n,
    ensures
        total_of(targets(total, n)) == total,
        target(total, n, i) >= target(total, n, j),
        target(total, n, i) * n <= total + n,
        target(total, n, i) * n + n > total,
{
    lemma_targets_prefix(total, n, n as int);
    assert(targets(total, n).take(n as int) =~= targets(total, n));
    vstd::arithmetic::div_mod::lemma_fundamental_div_mod(total as int, n as int);
    vstd::arithmetic::div_mod::lemma_mod_bound(total as int, n as int);
    assert(n * (total / n) == (total / n) * n) by (nonlinear_arith);
    assert((total / n + 1) * n == (total / n) * n + n) by (nonlinear_arith);
}

proof fn lemma_ring_place(a: int, r: int, n: int)
    requires
        0 <= a < n,
        0 < r < n,
    ensures
        0 <= (a + r) % n < n,
        (a + r) % n != a,
        (a + r) % n == if a + r < n {
            a + r
        } else {
            a + r - n
        },
{
    if a + r < n {
        vstd::arithmetic::div_mod::lemma_small_mod((a + r) as nat, n as nat);
    } else {
        vstd::arithmetic::div_mod::lemma_mod_sub_multiples_vanish(a + r, n);
        vstd::arithmetic::div_mod::lemma_small_mod((a + r - n) as nat, n as nat);
    }
}

/// A vBucket has as many replicas as are asked for, as far as there are other nodes: the nodes that
/// follow its owner around the ring, each once.
pub proof fn law_replicas_follow_around_the_ring(nodes: Seq<Seq<char>>, a: int, r: int)
    requires
        0 <= a < nodes.len(),
        0 <= r < nodes.len(),
    ensures
        ring_replicas(nodes, a, r).len() == r,
        forall|i: int|
            0 <= i < r ==> #[trigger] ring_replicas(nodes, a, r)[i] == nodes[(a + i + 1)
                % nodes.len() as int],
        nodes.no_duplicates() ==> ring_replicas(nodes, a, r).no_duplicates(),
        nodes.no_duplicates() ==> !ring_replicas(nodes, a, r).contains(nodes[a]),
    decreases r,
{
    let n = nodes.len() as int;
    if r > 0 {
        law_replicas_follow_around_the_ring(nodes, a, r - 1);
        lemma_ring_place(a, r, n);
    }
    let all = ring_replicas(nodes, a, r);
    if nodes.no_duplicates() {
        assert forall|i: int, j: int| 0 <= i < all.len() && 0 <= j < all.len() && i != j implies all[i]
            != all[j] by {
            lemma_ring_place(a, i + 1, n);
            lemma_ring_place(a, j + 1, n);
        }
        if all.contains(nodes[a]) {
            let i = choose|i: int| 0 <= i < all.len() && all[i] == nodes[a];
            lemma_ring_place(a, i + 1, n);
        }
    }
}

/// Replicas of a vBucket never exceed what is asked for.
pub proof fn law_replicas_are_no_more_than_asked(nodes: Seq<Seq<char>>, a: int, r: int)
    requires
        r >= 0,
    ensures
        ring_replicas(nodes, a, r).len() <= r,
        nodes.len() <= 1 ==> ring_replicas(nodes, a, r).len() == 0,
    decreases r,
{
    if r > 0 {
        law_replicas_are_no_more_than_asked(nodes, a, r - 1);
    }
}

/// A new map deals the vBuckets out to the nodes in turn, with the replicas on the nodes that follow.
pub proof fn law_fresh_map_deals_in_turn(
    num_vbuckets: u16,
    num_replicas: u8,
    nodes: Seq<Seq<char>>,
    vb: int,
    i: int,
)
    requires
        0 <= vb < num_vbuckets,
        0 <= i < num_replicas < nodes.len(),
    ensures
        ({
            let m = PartitionMapView::fresh(num_vbuckets, num_replicas, nodes);
            let n = nodes.len() as int;
            &&& m.map.len() == num_vbuckets
            &&& m.num_vbuckets == num_vbuckets
            &&& m.num_replicas == num_replicas
            &&& m.revision == 1
            &&& m.map[vb].active == nodes[vb % n]
            &&& m.map[vb].replicas.len() == num_replicas
            &&& m.map[vb].replicas[i] == nodes[(vb % n + i + 1) % n]
        }),
{
    let n = nodes.len() as int;
    vstd::arithmetic::div_mod::lemma_mod_bound(vb, n);
    law_replicas_follow_around_the_ring(nodes, vb % n, num_replicas as int);
}

/// A rebalance over nodes raises the revision by one, keeps the number of vBuckets and of replicas,
/// and gives every vBucket as many replicas as are asked for, as far as there are nodes.
pub proof fn law_rebalance_keeps_the_numbers(m: PartitionMapView, nodes: Seq<Seq<char>>, vb: int)
    requires
        nodes.no_duplicates(),
        nodes.len() > m.num_replicas,
        m.revision < u64::MAX,
        0 <= vb < m.map.len(),
    ensures
        ({
            let after = m.rebalanced(nodes);
            &&& after.revision == m.revision + 1
            &&& after.num_vbuckets == m.num_vbuckets
            &&& after.num_replicas == m.num_replicas
            &&& after.map.len() == m.map.len()
            &&& after.map[vb].replicas.len() == m.num_replicas
            &&& after.map[vb].replicas.no_duplicates()
        }),
{
    let was = owners(m.map);
    lemma_new_owner_is_a_node(was, nodes, vb);
    let now = new_owner(was, nodes, vb);
    lemma_last_index(nodes, now);
    law_replicas_follow_around_the_ring(nodes, last_index(nodes, now)->0, m.num_replicas as int);
}

proof fn lemma_ids(m: PartitionMapView, name: Seq<char>, k: int)
    requires
        0 <= k <= m.map.len() <= 0x1_0000,
    ensures
        forall|i: int|
            0 <= i < m.active_ids(name, k).len() ==> (#[trigger] m.active_ids(name, k)[i]) < k
                && m.map[m.active_ids(name, k)[i] as int].active == name,
        forall|i: int|
            0 <= i < m.replica_ids(name, k).len() ==> (#[trigger] m.replica_ids(name, k)[i]) < k
                && m.map[m.replica_ids(name, k)[i] as int].replicas.contains(name),
        forall|i: int, j: int|
            0 <= i < j < m.active_ids(name, k).len() ==> (#[trigger] m.active_ids(name, k)[i]) < (
            #[trigger] m.active_ids(name, k)[j]),
        forall|i: int, j: int|
            0 <= i < j < m.replica_ids(name, k).len() ==> (#[trigger] m.replica_ids(name, k)[i]) < (
            #[trigger] m.replica_ids(name, k)[j]),
        forall|vb: int|
            0 <= vb < k && (#[trigger] m.map[vb]).active == name ==> m.active_ids(name, k).contains(
                vb as u16,
            ),
        forall|vb: int|
            0 <= vb < k && (#[trigger] m.map[vb]).replicas.contains(name) ==> m.replica_ids(
                name,
                k,
            ).contains(vb as u16),
    decreases k,
{
    if k > 0 {
        lemma_ids(m, name, k - 1);
        let a0 = m.active_ids(name, k - 1);
        let a = m.active_ids(name, k);
        let r0 = m.replica_ids(name, k - 1);
        let r = m.replica_ids(name, k);
        assert forall|vb: int| 0 <= vb < k && (#[trigger] m.map[vb]).active == name implies a.contains(
            vb as u16,
        ) by {
            if vb < k - 1 {
                let i = choose|i: int| 0 <= i < a0.len() && a0[i] == vb as u16;
                assert(a[i] == vb as u16);
            } else {
                assert(a[a0.len() as int] == vb as u16);
            }
        }
        assert forall|vb: int| 0 <= vb < k && (#[trigger] m.map[vb]).replicas.contains(
            name,
        ) implies r.contains(vb as u16) by {
            if vb < k - 1 {
                let i = choose|i: int| 0 <= i < r0.len() && r0[i] == vb as u16;
                assert(r[i] == vb as u16);
            } else {
                assert(r[r0.len() as int] == vb as u16);
            }
        }
        assert forall|i: int| 0 <= i < a0.len() implies a[i] == a0[i] by {}
        assert forall|i: int| 0 <= i < r0.len() implies r[i] == r0[i] by {}
        assert forall|i: int| 0 <= i < a.len() implies (#[trigger] a[i]) < k
            && m.map[a[i] as int].active == name by {
            if i < a0.len() {
                assert(a[i] == a0[i]);
            }
        }
        assert forall|i: int| 0 <= i < r.len() implies (#[trigger] r[i]) < k
            && m.map[r[i] as int].replicas.contains(name) by {
            if i < r0.len() {
                assert(r[i] == r0[i]);
            }
        }
    }
}

/// A node owns exactly the vBuckets that are listed as active on it, and is a replica of exactly those
/// that are listed so, in ascending order and each once.
pub proof fn law_lists_hold_the_vbuckets(m: PartitionMapView, name: Seq<char>, vb: u16)
    requires
        vb < m.map.len() <= 0x1_0000,
    ensures
        ({
            let n = m.map.len() as int;
            &&& m.active_ids(name, n).contains(vb) <==> m.map[vb as int].active == name
            &&& m.replica_ids(name, n).contains(vb) <==> m.map[vb as int].replicas.contains(name)
            &&& forall|i: int, j: int|
                0 <= i < j < m.active_ids(name, n).len() ==> (#[trigger] m.active_ids(name, n)[i]) < (
                #[trigger] m.active_ids(name, n)[j])
            &&& forall|i: int, j: int|
                0 <= i < j < m.replica_ids(name, n).len() ==> (#[trigger] m.replica_ids(name, n)[i])
                    < (#[trigger] m.replica_ids(name, n)[j])
        }),
{
    let n = m.map.len() as int;
    lemma_ids(m, name, n);
    if m.active_ids(name, n).contains(vb) {
        let i = choose|i: int| 0 <= i < m.active_ids(name, n).len() && m.active_ids(name, n)[i] == vb;
        assert(m.map[m.active_ids(name, n)[i] as int].active == name);
    }
    if m.replica_ids(name, n).contains(vb) {
        let i = choose|i: int|
            0 <= i < m.replica_ids(name, n).len() && m.replica_ids(name, n)[i] == vb;
        assert(m.map[m.replica_ids(name, n)[i] as int].replicas.contains(name));
    }
}

/// A transfer is planned and not yet begun.
pub proof fn law_transfers_are_pending(was: Seq<Seq<char>>, now: Seq<Seq<char>>, k: int)
    requires
        0 <= k <= was.len(),
        was.len() == now.len(),
    ensures
        forall|i: int|
            0 <= i < transfer_list(was, now, k).len() ==> (#[trigger] transfer_list(was, now, k)[i]).status
                == TransferStatus::Pending,
    decreases k,
{
    if k > 0 {
        law_transfers_are_pending(was, now, k - 1);
        let rest = transfer_list(was, now, k - 1);
        let all = transfer_list(was, now, k);
        assert forall|i: int| 0 <= i < all.len() implies (#[trigger] all[i]).status
            == TransferStatus::Pending by {
            if i < rest.len() {
                assert(all[i] == rest[i]);
            }
        }
    }
}

/// A node is in the group it was put in, and without one in the first.
pub proof fn law_nodes_have_one_group(groups: Map<Seq<char>, Seq<char>>, name: Seq<char>)
    ensures
        groups.contains_key(name) ==> group_of(groups, name) == groups[name],
        !groups.contains_key(name) ==> group_of(groups, name) == "Group 1"@,
{
}

/// Every name of a list is mentioned once, in the order in which the names come first.
pub proof fn law_names_are_mentioned_once(names: Seq<Seq<char>>, name: Seq<char>)
    ensures
        first_mentions(names).no_duplicates(),
        first_mentions(names).contains(name) <==> names.contains(name),
        names.contains(name) ==> first_mentions(names.push(name)) == first_mentions(names),
        !names.contains(name) ==> first_mentions(names.push(name)) == first_mentions(names) + seq![name],
    decreases names.len(),
{
    if names.len() > 0 {
        let rest = names.drop_last();
        law_names_are_mentioned_once(rest, name);
        law_names_are_mentioned_once(rest, names.last());
        let some = first_mentions(rest);
        if names.contains(name) {
            let i = choose|i: int| 0 <= i < names.len() && names[i] == name;
            if i < rest.len() {
                assert(rest[i] == name);
            }
        }
        if rest.contains(name) {
            let i = choose|i: int| 0 <= i < rest.len() && rest[i] == name;
            assert(names[i] == name);
        }
        assert(names[names.len() - 1] == names.last());
        if !some.contains(names.last()) {
            let more = some.push(names.last());
            assert(more[some.len() as int] == names.last());
            assert forall|x: Seq<char>| some.contains(x) implies more.contains(x) by {
                let i = choose|i: int| 0 <= i < some.len() && some[i] == x;
                assert(more[i] == x);
            }
            assert(more.contains(name) ==> some.contains(name) || name == names.last());
        }
    }
    assert(names.push(name).drop_last() =~= names);
    assert(first_mentions(names).push(name) =~= first_mentions(names) + seq![name]);
}

/// The vBuckets of which a node is a replica are listed in ascending order, each as often as it is.
pub proof fn law_replicas_are_listed(m: PartitionMapView, name: Seq<char>, k: int, vb: u16)
    requires
        0 <= k <= m.map.len() <= 0x1_0000,
    ensures
        m.replica_listings(name, k).contains(vb) <==> vb < k && m.map[vb as int].replicas.contains(
            name,
        ),
        forall|i: int, j: int|
            0 <= i < j < m.replica_listings(name, k).len() ==> (#[trigger] m.replica_listings(
                name,
                k,
            )[i]) <= (#[trigger] m.replica_listings(name, k)[j]),
        forall|i: int|
            0 <= i < m.replica_listings(name, k).len() ==> (#[trigger] m.replica_listings(name, k)[i])
                < k,
    decreases k,
{
    if k > 0 {
        law_replicas_are_listed(m, name, k - 1, vb);
        let rest = m.replica_listings(name, k - 1);
        let n = occurrences(m.map[k - 1].replicas, name);
        let more = Seq::new(n, |i: int| (k - 1) as u16);
        let all = m.replica_listings(name, k);
        assert(all == rest + more);
        lemma_listed_if_held(m.map[k - 1].replicas, name);
        if all.contains(vb) {
            let i = choose|i: int| 0 <= i < all.len() && all[i] == vb;
            if i < rest.len() {
                assert(rest[i] == vb);
                assert(rest.contains(vb));
            }
        }
        if rest.contains(vb) {
            let i = choose|i: int| 0 <= i < rest.len() && rest[i] == vb;
            assert(all[i] == vb);
        }
        if vb == k - 1 && n > 0 {
            assert(all[rest.len() as int] == vb);
        }
    }
}

proof fn lemma_listed_if_held(s: Seq<Seq<char>>, name: Seq<char>)
    ensures
        occurrences(s, name) > 0 <==> s.contains(name),
    decreases s.len(),
{
    if s.len() > 0 {
        lemma_listed_if_held(s.drop_last(), name);
        if s.contains(name) {
            let i = choose|i: int| 0 <= i < s.len() && s[i] == name;
            if i < s.len() - 1 {
                assert(s.drop_last()[i] == name);
            }
        }
        if s.drop_last().contains(name) {
            let i = choose|i: int| 0 <= i < s.len() - 1 && s.drop_last()[i] == name;
            assert(s[i] == name);
        }
        if s.last() == name {
            assert(s[s.len() - 1] == name);
        }
    }
}

/// A summary of a node tells its name, and lists and counts the vBuckets that it owns and those of
/// which it is a replica.
pub proof fn law_summaries_count_the_vbuckets(
    m: PartitionMapView,
    info: NodePartitionInfo,
    name: Seq<char>,
    vb: u16,
)
    requires
        m.describes(info, name),
        vb < m.num_vbuckets,
        m.num_vbuckets == m.map.len(),
    ensures
        info.node_name@ == name,
        info.active_vbuckets@.contains(vb) <==> m.map[vb as int].active == name,
        info.replica_vbuckets@.contains(vb) <==> m.map[vb as int].replicas.contains(name),
        info.active_count == info.active_vbuckets@.len(),
        info.replica_count == info.replica_vbuckets@.len(),
{
    law_lists_hold_the_vbuckets(m, name, vb);
    law_replicas_are_listed(m, name, m.num_vbuckets as int, vb);
}

} // verus!
