//! Durability levels of writes, and the writes that still wait for theirs.

use crate::clock::{monotonic_now, nanos_since};
use crate::text::{same_text, texts};
use std::time::Instant;
use vstd::prelude::*;

verus! {

/// Durability level for write operations.
#[derive(Debug, Clone, Copy, PartialEq, Eq, Structural)]
pub enum DurabilityLevel {
    /// Written to the memory of the active vBucket only.
    NoDurability,
    /// Acknowledged in memory by a majority of the copies.
    Majority,
    /// Acknowledged by a majority and on disk at the active node.
    MajorityAndPersistToActive,
    /// On disk at a majority of the nodes.
    PersistToMajority,
}

impl Default for DurabilityLevel {
    fn default() -> (r: Self)
        ensures
            r == DurabilityLevel::NoDurability,
    {
        DurabilityLevel::NoDurability
    }
}

/// Durability requirement of a write.
#[derive(Debug, Clone, Copy, PartialEq, Eq, Structural)]
pub struct DurabilityRequirement {
    pub level: DurabilityLevel,
    /// Timeout in milliseconds.
    pub timeout_ms: u64,
}

impl Default for DurabilityRequirement {
    fn default() -> (r: Self)
        ensures
            r == (DurabilityRequirement { level: DurabilityLevel::NoDurability, timeout_ms: 2500 }),
    {
        DurabilityRequirement { level: DurabilityLevel::NoDurability, timeout_ms: 2500 }
    }
}

/// How many replicas have to acknowledge: with the active copy they are a majority of all
/// copies.
pub open spec fn acks_needed(level: DurabilityLevel, replicas: int) -> int {
    if level == DurabilityLevel::NoDurability {
        0
    } else {
        (1 + replicas) / 2 + 1 - 1
    }
}

/// Whether a level asks for the write to be on disk at the active node.
pub open spec fn persists_active(level: DurabilityLevel) -> bool {
    level == DurabilityLevel::MajorityAndPersistToActive || level
        == DurabilityLevel::PersistToMajority
}

impl DurabilityRequirement {
    /// The number of replica acknowledgements needed with `num_replicas` replicas.
    pub fn required_acks(&self, num_replicas: u8) -> (r: usize)
        ensures
            r == acks_needed(self.level, num_replicas as int),
    {
        self.acks_for(num_replicas as usize)
    }

    /// The number of replica acknowledgements needed with that many replicas.
    fn acks_for(&self, replicas: usize) -> (r: usize)
        ensures
            r == acks_needed(self.level, replicas as int),
    {
        match self.level {
            DurabilityLevel::NoDurability => 0,
            _ => replicas / 2 + replicas % 2,
        }
    }

    /// Whether the write has to be on disk at the active node.
    pub fn requires_persist_active(&self) -> (r: bool)
        ensures
            r == persists_active(self.level),
    {
        matches!(
            self.level,
            DurabilityLevel::MajorityAndPersistToActive | DurabilityLevel::PersistToMajority
        )
    }

    /// Whether the write has to be on disk at the replicas.
    pub fn requires_persist_replicas(&self) -> (r: bool)
        ensures
            r == (self.level == DurabilityLevel::PersistToMajority),
    {
        matches!(self.level, DurabilityLevel::PersistToMajority)
    }
}

/// A write that waits for its durability requirement.
#[derive(Debug)]
pub struct DurabilityToken {
    pub key: String,
    pub vbucket_id: u16,
    pub cas: u64,
    pub seq_no: u64,
    pub requirement: DurabilityRequirement,
    /// For each replica, whether it has acknowledged.
    pub replica_acks: Vec<(String, bool)>,
    /// Whether the active node has the write on disk.
    pub active_persisted: bool,
    pub created_at: Instant,
}

/// What a [`DurabilityToken`] stands for.
#[verifier::ext_equal]
pub struct TokenView {
    pub key: Seq<char>,
    pub vbucket_id: u16,
    pub cas: u64,
    pub seq_no: u64,
    pub requirement: DurabilityRequirement,
    pub replica_acks: Seq<(Seq<char>, bool)>,
    pub active_persisted: bool,
    pub created_at: Instant,
}

/// How many replicas of a list have acknowledged.
pub open spec fn ack_count(acks: Seq<(Seq<char>, bool)>) -> nat
    decreases acks.len(),
{
    if acks.len() == 0 {
        0
    } else {
        ack_count(acks.drop_last()) + if acks.last().1 {
            1nat
        } else {
            0nat
        }
    }
}

/// The place of the first replica of that name at or after place `i`.
pub open spec fn first_named(acks: Seq<(Seq<char>, bool)>, name: Seq<char>, i: int) -> Option<int>
    decreases acks.len() - i,
{
    if i < 0 || i >= acks.len() {
        None
    } else if acks[i].0 == name {
        Some(i)
    } else {
        first_named(acks, name, i + 1)
    }
}

impl TokenView {
    /// Whether enough replicas have acknowledged, and the active node has persisted where asked.
    pub open spec fn satisfied(self) -> bool {
        &&& ack_count(self.replica_acks) >= acks_needed(
            self.requirement.level,
            self.replica_acks.len() as int,
        )
        &&& persists_active(self.requirement.level) ==> self.active_persisted
    }

    /// After the acknowledgement of a replica.
    pub open spec fn acked(self, name: Seq<char>) -> Self {
        TokenView {
            replica_acks: match first_named(self.replica_acks, name, 0) {
                Some(i) => self.replica_acks.update(i, (self.replica_acks[i].0, true)),
                None => self.replica_acks,
            },
            ..self
        }
    }

    /// After the active node has persisted.
    pub open spec fn persisted(self) -> Self {
        TokenView { active_persisted: true, ..self }
    }

    /// Whether the timeout is over after that many nanoseconds.
    pub open spec fn timed_out_after(self, elapsed_nanos: u128) -> bool {
        elapsed_nanos > self.requirement.timeout_ms * 1_000_000
    }

    /// Whether the token waits for that write.
    pub open spec fn is_for(self, vbucket_id: u16, cas: u64) -> bool {
        self.vbucket_id == vbucket_id && self.cas == cas
    }
}

impl View for DurabilityToken {
    type V = TokenView;

    open spec fn view(&self) -> TokenView {
        TokenView {
            key: self.key@,
            vbucket_id: self.vbucket_id,
            cas: self.cas,
            seq_no: self.seq_no,
            requirement: self.requirement,
            replica_acks: Seq::new(
                self.replica_acks@.len(),
                |i: int| (self.replica_acks@[i].0@, self.replica_acks@[i].1),
            ),
            active_persisted: self.active_persisted,
            created_at: self.created_at,
        }
    }
}

impl DurabilityToken {
    /// A token for a write of which no replica has acknowledged yet.
    pub fn new(
        key: String,
        vbucket_id: u16,
        cas: u64,
        seq_no: u64,
        requirement: DurabilityRequirement,
        replica_nodes: Vec<String>,
    ) -> (r: Self)
        ensures
            r@ == (TokenView {
                key: key@,
                vbucket_id,
                cas,
                seq_no,
                requirement,
                replica_acks: Seq::new(
                    replica_nodes@.len(),
                    |i: int| (texts(replica_nodes@)[i], false),
                ),
                active_persisted: false,
                created_at: r.created_at,
            }),
    {
        let mut replica_acks: Vec<(String, bool)> = Vec::new();
        let mut i: usize = 0;
        while i < replica_nodes.len()
            invariant
                i <= replica_nodes@.len(),
                replica_acks@.len() == i,
                forall|k: int|
                    0 <= k < i ==> (#[trigger] replica_acks@[k]).0 == replica_nodes@[k]
                        && !replica_acks@[k].1,
            decreases replica_nodes@.len() - i,
        {
            replica_acks.push((replica_nodes[i].clone(), false));
            i = i + 1;
        }
        let r = DurabilityToken {
            key,
            vbucket_id,
            cas,
            seq_no,
            requirement,
            replica_acks,
            active_persisted: false,
            created_at: monotonic_now(),
        };
        assert(r@.replica_acks =~= Seq::new(
            replica_nodes@.len(),
            |i: int| (texts(replica_nodes@)[i], false),
        ));
        r
    }

    /// Records the acknowledgement of a replica.
    pub fn ack_replica(&mut self, node_name: &str)
        ensures
            final(self)@ == old(self)@.acked(node_name@),
    {
        let ghost before = self@;
        let mut i: usize = 0;
        while i < self.replica_acks.len() && !same_text(self.replica_acks[i].0.as_str(), node_name)
            invariant
                i <= self.replica_acks@.len(),
                self@ == before,
                first_named(before.replica_acks, node_name@, 0) == first_named(
                    before.replica_acks,
                    node_name@,
                    i as int,
                ),
            decreases self.replica_acks@.len() - i,
        {
            assert(before.replica_acks[i as int].0 == self.replica_acks@[i as int].0@);
            i = i + 1;
        }
        if i < self.replica_acks.len() {
            assert(before.replica_acks[i as int].0 == self.replica_acks@[i as int].0@);
            let entry = &mut self.replica_acks[i];
            entry.1 = true;
        }
        assert(self@ =~= before.acked(node_name@));
    }

    /// Records that the active node has persisted.
    pub fn ack_active_persist(&mut self)
        ensures
            final(self)@ == old(self)@.persisted(),
    {
        self.active_persisted = true;
    }

    /// Whether the requirement is met.
    pub fn is_satisfied(&self) -> (r: bool)
        ensures
            r == self@.satisfied(),
    {
        let required: usize = self.requirement.acks_for(self.replica_acks.len());
        let mut acked: usize = 0;
        let mut i: usize = 0;
        let ghost all = self@.replica_acks;
        assert(all.take(0) =~= Seq::<(Seq<char>, bool)>::empty());
        while i < self.replica_acks.len()
            invariant
                i <= self.replica_acks@.len(),
                acked <= i,
                all == self@.replica_acks,
                acked == ack_count(all.take(i as int)),
            decreases self.replica_acks@.len() - i,
        {
            assert(all.take(i + 1).drop_last() =~= all.take(i as int));
            if self.replica_acks[i].1 {
                acked = acked + 1;
            }
            i = i + 1;
        }
        assert(all.take(i as int) =~= all);
        if acked < required {
            return false;
        }
        if self.requirement.requires_persist_active() && !self.active_persisted {
            return false;
        }
        true
    }

    /// Whether the timeout is over after that many nanoseconds.
    pub fn is_timed_out_after(&self, elapsed_nanos: u128) -> (r: bool)
        ensures
            r == self@.timed_out_after(elapsed_nanos),
    {
        elapsed_nanos > self.requirement.timeout_ms as u128 * 1_000_000u128
    }

    /// Whether the timeout is over now.
    ///
    /// The result rests on the monotonic clock: [`Self::is_timed_out_after`] says what it is for
    /// each reading.
    pub fn is_timed_out(&self) -> (r: bool)
        ensures
            exists|elapsed: u128| r == #[trigger] self@.timed_out_after(elapsed),
    {
        let elapsed: u128 = nanos_since(&self.created_at);
        self.is_timed_out_after(elapsed)
    }
}

/// The writes that wait for their durability requirement, at most one for each vBucket and CAS.
pub struct DurabilityManager {
    pub pending: Vec<DurabilityToken>,
}

/// What a list of tokens stands for.
pub open spec fn token_views(v: Seq<DurabilityToken>) -> Seq<TokenView> {
    Seq::new(v.len(), |i: int| v[i]@)
}

/// The place of the token for a write, at or after place `i`.
pub open spec fn token_place(pending: Seq<TokenView>, vbucket_id: u16, cas: u64, i: int) -> Option<
    int,
>
    decreases pending.len() - i,
{
    if i < 0 || i >= pending.len() {
        None
    } else if pending[i].is_for(vbucket_id, cas) {
        Some(i)
    } else {
        token_place(pending, vbucket_id, cas, i + 1)
    }
}

/// The pending tokens after a new one is registered, in place of one for the same write.
pub open spec fn registered(pending: Seq<TokenView>, token: TokenView) -> Seq<TokenView> {
    match token_place(pending, token.vbucket_id, token.cas, 0) {
        Some(i) => pending.update(i, token),
        None => pending.push(token),
    }
}

/// The pending tokens after the one at place `i` became `token`: a satisfied token leaves.
pub open spec fn settled(pending: Seq<TokenView>, i: int, token: TokenView) -> Seq<TokenView> {
    if token.satisfied() {
        pending.remove(i)
    } else {
        pending.update(i, token)
    }
}

/// Those of the first `k` tokens whose timeout is not over, each with its own elapsed time.
pub open spec fn unexpired(pending: Seq<TokenView>, elapsed: Seq<u128>, k: int) -> Seq<TokenView>
    decreases k,
{
    if k <= 0 {
        Seq::empty()
    } else if pending[k - 1].timed_out_after(elapsed[k - 1]) {
        unexpired(pending, elapsed, k - 1)
    } else {
        unexpired(pending, elapsed, k - 1).push(pending[k - 1])
    }
}

impl View for DurabilityManager {
    type V = Seq<TokenView>;

    open spec fn view(&self) -> Seq<TokenView> {
        token_views(self.pending@)
    }
}

impl DurabilityManager {
    /// No two tokens are for the same write.
    pub open spec fn wf(self) -> bool {
        forall|i: int, j: int|
            0 <= i < j < self@.len() ==> !(#[trigger] self@[i]).is_for(
                (#[trigger] self@[j]).vbucket_id,
                self@[j].cas,
            )
    }

    pub fn new() -> (r: Self)
        ensures
            r.wf(),
            r@ == Seq::<TokenView>::empty(),
    {
        let r = DurabilityManager { pending: Vec::new() };
        assert(r@ =~= Seq::<TokenView>::empty());
        r
    }

    /// The place of the token for a write.
    fn place(&self, vbucket_id: u16, cas: u64) -> (r: Option<usize>)
        ensures
            match r {
                Some(i) => i < self@.len() && token_place(self@, vbucket_id, cas, 0) == Some(
                    i as int,
                ) && self@[i as int].is_for(vbucket_id, cas),
                None => token_place(self@, vbucket_id, cas, 0) is None && forall|k: int|
                    0 <= k < self@.len() ==> !(#[trigger] self@[k]).is_for(vbucket_id, cas),
            },
    {
        let mut i: usize = 0;
        while i < self.pending.len()
            invariant
                i <= self.pending@.len(),
                token_place(self@, vbucket_id, cas, 0) == token_place(
                    self@,
                    vbucket_id,
                    cas,
                    i as int,
                ),
                forall|k: int| 0 <= k < i ==> !(#[trigger] self@[k]).is_for(vbucket_id, cas),
            decreases self.pending@.len() - i,
        {
            assert(self@[i as int] == self.pending@[i as int]@);
            if self.pending[i].vbucket_id == vbucket_id && self.pending[i].cas == cas {
                return Some(i);
            }
            i = i + 1;
        }
        None
    }

    /// Registers a durable write.
    pub fn register(&mut self, token: DurabilityToken)
        requires
            old(self).wf(),
        ensures
            final(self).wf(),
            final(self)@ == registered(old(self)@, token@),
    {
        let ghost before = self@;
        match self.place(token.vbucket_id, token.cas) {
            Some(i) => {
                self.pending.set(i, token);
                assert(self@ =~= before.update(i as int, token@));
            },
            None => {
                self.pending.push(token);
                assert(self@ =~= before.push(token@));
            },
        }
    }

    /// Takes the token at place `i` out if it is satisfied.
    fn settle(&mut self, i: usize) -> (r: bool)
        requires
            old(self).wf(),
            i < old(self)@.len(),
        ensures
            final(self).wf(),
            r == old(self)@[i as int].satisfied(),
            final(self)@ == if r {
                old(self)@.remove(i as int)
            } else {
                old(self)@
            },
    {
        let ghost before = self@;
        assert(before[i as int] == self.pending@[i as int]@);
        if self.pending[i].is_satisfied() {
            let gone = self.pending.remove(i);
            assert(self@ =~= before.remove(i as int));
            true
        } else {
            false
        }
    }

    /// Records the acknowledgement of a replica. `Some(true)` when the write is now durable,
    /// `None` when no such write is pending.
    pub fn ack_replica(&mut self, vbucket_id: u16, cas: u64, node_name: &str) -> (r: Option<bool>)
        requires
            old(self).wf(),
        ensures
            final(self).wf(),
            match token_place(old(self)@, vbucket_id, cas, 0) {
                Some(i) => {
                    let token = old(self)@[i].acked(node_name@);
                    r == Some(token.satisfied()) && final(self)@ == settled(old(self)@, i, token)
                },
                None => r is None && final(self)@ == old(self)@,
            },
    {
        let ghost before = self@;
        match self.place(vbucket_id, cas) {
            Some(i) => {
                let token = &mut self.pending[i];
                token.ack_replica(node_name);
                proof {
                    let after = before[i as int].acked(node_name@);
                    assert(self@ =~= before.update(i as int, after));
                    assert(before.update(i as int, after).remove(i as int) =~= before.remove(
                        i as int,
                    ));
                }
                Some(self.settle(i))
            },
            None => None,
        }
    }

    /// Records that the active node has persisted a write.
    pub fn ack_persist(&mut self, vbucket_id: u16, cas: u64) -> (r: Option<bool>)
        requires
            old(self).wf(),
        ensures
            final(self).wf(),
            match token_place(old(self)@, vbucket_id, cas, 0) {
                Some(i) => {
                    let token = old(self)@[i].persisted();
                    r == Some(token.satisfied()) && final(self)@ == settled(old(self)@, i, token)
                },
                None => r is None && final(self)@ == old(self)@,
            },
    {
        let ghost before = self@;
        match self.place(vbucket_id, cas) {
            Some(i) => {
                let token = &mut self.pending[i];
                token.ack_active_persist();
                proof {
                    let after = before[i as int].persisted();
                    assert(self@ =~= before.update(i as int, after));
                    assert(before.update(i as int, after).remove(i as int) =~= before.remove(
                        i as int,
                    ));
                }
                Some(self.settle(i))
            },
            None => None,
        }
    }

    /// Drops the tokens whose timeout is over, given how long each has been waiting; returns
    /// how many there were.
    pub fn cleanup_elapsed(&mut self, elapsed: &Vec<u128>) -> (r: usize)
        requires
            old(self).wf(),
            elapsed@.len() == old(self)@.len(),
        ensures
            final(self).wf(),
            final(self)@ == unexpired(old(self)@, elapsed@, old(self)@.len() as int),
            r == old(self)@.len() - final(self)@.len(),
    {
        let ghost before = self@;
        let total: usize = self.pending.len();
        let mut i: usize = 0;
        let mut k: usize = 0;
        // The first `i` tokens are those that stay among the first `k` of the original list.
        assert(self@.take(0) =~= unexpired(before, elapsed@, 0));
        assert(self@ =~= unexpired(before, elapsed@, 0) + before.subrange(
            0,
            before.len() as int,
        ));
        while k < total
            invariant
                i <= k <= total,
                total == before.len(),
                elapsed@.len() == total,
                self.wf(),
                self@.len() == i + (total - k),
                unexpired(before, elapsed@, k as int).len() == i,
                self@ == unexpired(before, elapsed@, k as int) + before.subrange(
                    k as int,
                    before.len() as int,
                ),
            decreases total - k,
        {
            let ghost kept = unexpired(before, elapsed@, k as int);
            let ghost rest = before.subrange(k as int, before.len() as int);
            assert(self@[i as int] == rest[0]);
            assert(self@[i as int] == self.pending@[i as int]@);
            let ghost now = self@;
            if self.pending[i].is_timed_out_after(elapsed[k]) {
                let gone = self.pending.remove(i);
                assert(self@ =~= now.remove(i as int));
                assert(self@ =~= unexpired(before, elapsed@, k + 1) + before.subrange(
                    k + 1,
                    before.len() as int,
                ));
            } else {
                i = i + 1;
                assert(self@ =~= unexpired(before, elapsed@, k + 1) + before.subrange(
                    k + 1,
                    before.len() as int,
                ));
            }
            k = k + 1;
        }
        assert(self@ =~= unexpired(before, elapsed@, total as int));
        total - self.pending.len()
    }

    /// Drops the tokens whose timeout is over; returns how many there were.
    pub fn cleanup_timed_out(&mut self) -> (r: usize)
        requires
            old(self).wf(),
        ensures
            final(self).wf(),
            r == old(self)@.len() - final(self)@.len(),
            exists|elapsed: Seq<u128>|
                elapsed.len() == old(self)@.len() && final(self)@ == unexpired(
                    old(self)@,
                    elapsed,
                    old(self)@.len() as int,
                ),
    {
        let mut elapsed: Vec<u128> = Vec::new();
        let mut i: usize = 0;
        while i < self.pending.len()
            invariant
                i <= self.pending@.len(),
                elapsed@.len() == i,
            decreases self.pending@.len() - i,
        {
            elapsed.push(nanos_since(&self.pending[i].created_at));
            i = i + 1;
        }
        self.cleanup_elapsed(&elapsed)
    }

    /// Whether a write still waits for its durability requirement.
    pub fn is_pending(&self, vbucket_id: u16, cas: u64) -> (r: bool)
        ensures
            r == token_place(self@, vbucket_id, cas, 0) is Some,
    {
        self.place(vbucket_id, cas).is_some()
    }

    /// The number of pending durable writes.
    pub fn pending_count(&self) -> (r: usize)
        ensures
            r == self@.len(),
    {
        self.pending.len()
    }
}

// ---- Laws ----

/// For every level but `NoDurability` the acknowledging replicas and the active node are a majority
/// of all copies, and one acknowledgement fewer would not be.
pub proof fn law_durable_writes_reach_a_majority(level: DurabilityLevel, replicas: nat)
    requires
        level != DurabilityLevel::NoDurability,
    ensures
        2 * (1 + acks_needed(level, replicas as int)) > 1 + replicas,
        2 * acks_needed(level, replicas as int) <= 1 + replicas,
{
}

proof fn lemma_ack_count_update(acks: Seq<(Seq<char>, bool)>, i: int)
    requires
        0 <= i < acks.len(),
    ensures
        ack_count(acks.update(i, (acks[i].0, true))) == ack_count(acks) + if acks[i].1 {
            0nat
        } else {
            1nat
        },
    decreases acks.len(),
{
    let t = acks.update(i, (acks[i].0, true));
    if i == acks.len() - 1 {
        assert(t.drop_last() =~= acks.drop_last());
    } else {
        lemma_ack_count_update(acks.drop_last(), i);
        assert(t.drop_last() =~= acks.drop_last().update(i, (acks[i].0, true)));
    }
}

proof fn lemma_first_named(acks: Seq<(Seq<char>, bool)>, name: Seq<char>, i: int)
    requires
        0 <= i <= acks.len(),
    ensures
        match first_named(acks, name, i) {
            Some(p) => i <= p < acks.len() && acks[p].0 == name,
            None => true,
        },
    decreases acks.len() - i,
{
    if i < acks.len() {
        lemma_first_named(acks, name, i + 1);
    }
}

/// Acknowledgements never undo durability: a satisfied token stays satisfied.
pub proof fn law_acknowledgements_never_undo_durability(t: TokenView, name: Seq<char>)
    requires
        t.satisfied(),
    ensures
        t.acked(name).satisfied(),
        t.persisted().satisfied(),
{
    lemma_first_named(t.replica_acks, name, 0);
    match first_named(t.replica_acks, name, 0) {
        Some(i) => {
            lemma_ack_count_update(t.replica_acks, i);
        },
        None => {},
    }
}

/// A write without durability requirement is satisfied at once.
pub proof fn law_no_durability_is_satisfied(t: TokenView)
    requires
        t.requirement.level == DurabilityLevel::NoDurability,
    ensures
        t.satisfied(),
{
}

/// How many acknowledgements a list holds: those of the replicas that have acknowledged.
pub proof fn law_acknowledgements_are_those_given(acks: Seq<(Seq<char>, bool)>)
    ensures
        ack_count(acks) == acks.filter(|a: (Seq<char>, bool)| a.1).len(),
    decreases acks.len(),
{
    reveal(Seq::filter);
    if acks.len() > 0 {
        law_acknowledgements_are_those_given(acks.drop_last());
    }
}

/// A write is durable exactly where it asks for nothing, or enough replicas have acknowledged that
/// with the active copy they are more than half of all copies, and the active node has it on disk
/// where the level asks for that.
pub proof fn law_durable_means_a_majority(t: TokenView)
    ensures
        ({
            let given = t.replica_acks.filter(|a: (Seq<char>, bool)| a.1).len();
            let copies = 1 + t.replica_acks.len();
            let disk = t.requirement.level == DurabilityLevel::MajorityAndPersistToActive
                || t.requirement.level == DurabilityLevel::PersistToMajority;
            &&& t.requirement.level == DurabilityLevel::NoDurability ==> t.satisfied()
            &&& t.requirement.level != DurabilityLevel::NoDurability ==> (t.satisfied() <==> 2 * (1
                + given) > copies && (disk ==> t.active_persisted))
        }),
{
    law_acknowledgements_are_those_given(t.replica_acks);
}

/// The acknowledgement of a replica counts for that replica alone: the first of its name has then
/// acknowledged, and nothing else about the write changes; a node that is no replica has no say.
pub proof fn law_replicas_acknowledge_for_themselves(t: TokenView, name: Seq<char>, p: int)
    ensures
        ({
            let after = t.acked(name);
            let first = 0 <= p < t.replica_acks.len() && t.replica_acks[p].0 == name && forall|k: int|
                0 <= k < p ==> (#[trigger] t.replica_acks[k]).0 != name;
            &&& after == (TokenView { replica_acks: after.replica_acks, ..t })
            &&& after.replica_acks.len() == t.replica_acks.len()
            &&& first ==> after.replica_acks[p] == (name, true)
            &&& first ==> forall|k: int|
                0 <= k < t.replica_acks.len() && k != p ==> #[trigger] after.replica_acks[k]
                    == t.replica_acks[k]
            &&& (forall|k: int|
                0 <= k < t.replica_acks.len() ==> (#[trigger] t.replica_acks[k]).0 != name) ==> after
                == t
            &&& t.persisted().active_persisted
            &&& t.persisted() == (TokenView { active_persisted: true, ..t })
        }),
{
    lemma_first_named(t.replica_acks, name, 0);
    let first = 0 <= p < t.replica_acks.len() && t.replica_acks[p].0 == name && forall|k: int|
        0 <= k < p ==> (#[trigger] t.replica_acks[k]).0 != name;
    if first {
        lemma_named_first(t.replica_acks, name, 0, p);
    }
    if forall|k: int| 0 <= k < t.replica_acks.len() ==> (#[trigger] t.replica_acks[k]).0 != name {
        match first_named(t.replica_acks, name, 0) {
            Some(i) => {
                assert(t.replica_acks[i].0 == name);
            },
            None => {},
        }
    }
}

proof fn lemma_named_first(acks: Seq<(Seq<char>, bool)>, name: Seq<char>, i: int, p: int)
    requires
        0 <= i <= p < acks.len(),
        acks[p].0 == name,
        forall|k: int| i <= k < p ==> (#[trigger] acks[k]).0 != name,
    ensures
        first_named(acks, name, i) == Some(p),
    decreases p - i,
{
    if i < p {
        lemma_named_first(acks, name, i + 1, p);
    }
}

/// A write waits no longer once more time has passed than its timeout, which is in milliseconds.
pub proof fn law_waiting_ends_after_the_timeout(t: TokenView, millis: u64, rest: u64)
    requires
        rest < 1_000_000,
        millis * 1_000_000 + rest <= u128::MAX,
    ensures
        millis < t.requirement.timeout_ms ==> !t.timed_out_after(
            (millis * 1_000_000 + rest) as u128,
        ),
        millis > t.requirement.timeout_ms ==> t.timed_out_after((millis * 1_000_000 + rest) as u128),
        millis == t.requirement.timeout_ms ==> (t.timed_out_after(
            (millis * 1_000_000 + rest) as u128,
        ) <==> rest > 0),
{
}

proof fn lemma_token_place(pending: Seq<TokenView>, vb: u16, cas: u64, i: int)
    requires
        0 <= i <= pending.len(),
    ensures
        match token_place(pending, vb, cas, i) {
            Some(p) => i <= p < pending.len() && pending[p].vbucket_id == vb && pending[p].cas == cas
                && forall|k: int|
                i <= k < p ==> !((#[trigger] pending[k]).vbucket_id == vb && pending[k].cas == cas),
            None => forall|k: int|
                i <= k < pending.len() ==> !((#[trigger] pending[k]).vbucket_id == vb
                    && pending[k].cas == cas),
        },
    decreases pending.len() - i,
{
    if i < pending.len() {
        lemma_token_place(pending, vb, cas, i + 1);
    }
}

/// A write is pending exactly where one of the tokens is for its vBucket and its CAS.
pub proof fn law_pending_means_a_token(pending: Seq<TokenView>, vb: u16, cas: u64)
    ensures
        token_place(pending, vb, cas, 0) is Some <==> exists|k: int|
            0 <= k < pending.len() && (#[trigger] pending[k]).vbucket_id == vb && pending[k].cas
                == cas,
{
    lemma_token_place(pending, vb, cas, 0);
}

/// A write that is registered is pending with its own token, and the other writes stay as they were.
pub proof fn law_registered_writes_are_pending(
    pending: Seq<TokenView>,
    token: TokenView,
    other: TokenView,
)
    requires
        !(other.vbucket_id == token.vbucket_id && other.cas == token.cas),
    ensures
        registered(pending, token).contains(token),
        token_place(registered(pending, token), token.vbucket_id, token.cas, 0) is Some,
        registered(pending, token).contains(other) <==> pending.contains(other),
        registered(pending, token).len() <= pending.len() + 1,
{
    lemma_token_place(pending, token.vbucket_id, token.cas, 0);
    let after = registered(pending, token);
    lemma_token_place(after, token.vbucket_id, token.cas, 0);
    match token_place(pending, token.vbucket_id, token.cas, 0) {
        Some(p) => {
            assert(after[p] == token);
            if pending.contains(other) {
                let k = choose|k: int| 0 <= k < pending.len() && pending[k] == other;
                assert(after[k] == other);
            }
            if after.contains(other) {
                let k = choose|k: int| 0 <= k < after.len() && after[k] == other;
                assert(pending[k] == other);
            }
        },
        None => {
            assert(after[pending.len() as int] == token);
            if pending.contains(other) {
                let k = choose|k: int| 0 <= k < pending.len() && pending[k] == other;
                assert(after[k] == other);
            }
            if after.contains(other) {
                let k = choose|k: int| 0 <= k < after.len() && after[k] == other;
                assert(pending[k] == other);
            }
        },
    }
}

/// A write leaves the pending ones exactly when it is durable; the others stay, in their order.
pub proof fn law_durable_writes_leave(pending: Seq<TokenView>, i: int, token: TokenView)
    requires
        0 <= i < pending.len(),
    ensures
        token.satisfied() ==> settled(pending, i, token) == pending.take(i) + pending.skip(i + 1),
        !token.satisfied() ==> settled(pending, i, token).len() == pending.len() && settled(
            pending,
            i,
            token,
        )[i] == token && forall|k: int|
            0 <= k < pending.len() && k != i ==> #[trigger] settled(pending, i, token)[k]
                == pending[k],
{
    assert(pending.remove(i) =~= pending.take(i) + pending.skip(i + 1));
}

/// Cleaning up keeps the writes that have not waited longer than their timeout, in their order, and
/// drops the others.
pub proof fn law_cleanup_drops_what_timed_out(
    pending: Seq<TokenView>,
    elapsed: Seq<u128>,
    k: int,
)
    requires
        0 <= k <= pending.len(),
        pending.len() == elapsed.len(),
    ensures
        ({
            let places = Seq::new(k as nat, |i: int| i);
            let kept = places.filter(
                |i: int| elapsed[i] <= pending[i].requirement.timeout_ms * 1_000_000,
            );
            unexpired(pending, elapsed, k) == kept.map_values(|i: int| pending[i])
        }),
    decreases k,
{
    reveal(Seq::filter);
    let places = Seq::new(k as nat, |i: int| i);
    let kept = places.filter(|i: int| elapsed[i] <= pending[i].requirement.timeout_ms * 1_000_000);
    if k > 0 {
        law_cleanup_drops_what_timed_out(pending, elapsed, k - 1);
        let fewer = Seq::new((k - 1) as nat, |i: int| i);
        assert(places.drop_last() =~= fewer);
        assert(places.last() == k - 1);
        assert(unexpired(pending, elapsed, k) =~= kept.map_values(|i: int| pending[i]));
    } else {
        assert(unexpired(pending, elapsed, k) =~= kept.map_values(|i: int| pending[i]));
    }
}

/// Which levels ask for the disk: the active node's where it says so, and that of a majority, which
/// includes the active node.
pub proof fn law_levels_that_ask_for_the_disk(level: DurabilityLevel)
    ensures
        persists_active(level) <==> level != DurabilityLevel::NoDurability && level
            != DurabilityLevel::Majority,
{
}

} // verus!
