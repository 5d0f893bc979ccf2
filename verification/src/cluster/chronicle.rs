//! Chronicle: a replicated log of cluster configuration changes.
//!
//! Only the orchestrator appends entries. An entry is prepared first, sent to the other
//! nodes, and committed once a majority of the cluster has acknowledged it.

use crate::clock::{seconds_between, seconds_since, utc_now};
use crate::text::{contains_text, copy_texts, dec, push_dec, texts};
use vstd::prelude::*;
use vstd::string::*;

verus! {

/// Type of configuration change tracked by Chronicle.
#[derive(Debug, Clone, Copy, PartialEq, Eq, Structural)]
pub enum ConfigChangeType {
    BucketCreate,
    BucketDelete,
    /// Replicas, quota and the like.
    BucketUpdate,
    ScopeCreate,
    ScopeDelete,
    CollectionCreate,
    CollectionDelete,
    NodeAdd,
    NodeRemove,
    NodeFailover,
    NodeRecover,
    /// After a rebalance.
    PartitionMapUpdate,
    ClusterSettingsUpdate,
    ServerGroupAdd,
    ServerGroupDelete,
    ServerGroupNodeMove,
}

/// Status of an entry in the log.
#[derive(Debug, Clone, Copy, PartialEq, Eq, Structural)]
pub enum EntryStatus {
    /// Sent to nodes, waiting for acknowledgements.
    Prepared,
    /// Acknowledged by a majority: committed and safe.
    Committed,
    /// Timed out.
    Failed,
}

/// A configuration change in the log. The payload is a JSON text; the time is in
/// nanoseconds since the Unix epoch.
#[derive(Debug, Clone)]
pub struct ConfigEntry {
    /// Term number, raised when the orchestrator changes.
    pub term: u64,
    /// Index in the log.
    pub index: u64,
    pub change_type: ConfigChangeType,
    pub payload: String,
    pub proposed_by: String,
    pub status: EntryStatus,
    /// Nodes that have acknowledged this entry.
    pub acks: Vec<String>,
    /// Acknowledgements needed to commit.
    pub required_acks: usize,
    pub timestamp: i128,
}

/// What a [`ConfigEntry`] stands for.
#[verifier::ext_equal]
pub struct EntryView {
    pub term: u64,
    pub index: u64,
    pub change_type: ConfigChangeType,
    pub payload: Seq<char>,
    pub proposed_by: Seq<char>,
    pub status: EntryStatus,
    pub acks: Seq<Seq<char>>,
    pub required_acks: usize,
    pub timestamp: i128,
}

impl View for ConfigEntry {
    type V = EntryView;

    open spec fn view(&self) -> EntryView {
        EntryView {
            term: self.term,
            index: self.index,
            change_type: self.change_type,
            payload: self.payload@,
            proposed_by: self.proposed_by@,
            status: self.status,
            acks: texts(self.acks@),
            required_acks: self.required_acks,
            timestamp: self.timestamp,
        }
    }
}

impl ConfigEntry {
    /// A copy.
    pub fn copy(&self) -> (r: ConfigEntry)
        ensures
            r@ == self@,
    {
        ConfigEntry {
            term: self.term,
            index: self.index,
            change_type: self.change_type,
            payload: self.payload.clone(),
            proposed_by: self.proposed_by.clone(),
            status: self.status,
            acks: copy_texts(&self.acks),
            required_acks: self.required_acks,
            timestamp: self.timestamp,
        }
    }
}

impl EntryView {
    pub open spec fn with_status(self, status: EntryStatus) -> EntryView {
        EntryView { status, ..self }
    }

    pub open spec fn is_committed(self) -> bool {
        self.status == EntryStatus::Committed
    }
}

/// What a list of entries stands for.
pub open spec fn entry_views(v: Seq<ConfigEntry>) -> Seq<EntryView> {
    Seq::new(v.len(), |i: int| v[i]@)
}

/// A proposed configuration change.
#[derive(Debug, Clone)]
pub struct ConfigProposal {
    pub change_type: ConfigChangeType,
    pub payload: String,
    pub proposed_by: String,
}

/// Request of the orchestrator to a follower to replicate an entry.
#[derive(Debug, Clone)]
pub struct PrepareRequest {
    pub entry: ConfigEntry,
    pub leader_term: u64,
    pub leader_commit_index: u64,
}

/// Response of a follower to a prepare request.
#[derive(Debug, Clone)]
pub struct PrepareResponse {
    pub node: String,
    pub term: u64,
    pub index: u64,
    pub success: bool,
    pub reason: Option<String>,
}

/// Notice of the orchestrator that an entry is committed.
#[derive(Debug, Clone, Copy, PartialEq, Eq, Structural)]
pub struct CommitNotification {
    pub index: u64,
    pub term: u64,
}

/// The state of Chronicle, for monitoring.
#[derive(Debug, Clone)]
pub struct ChronicleSnapshot {
    pub node_name: String,
    pub is_leader: bool,
    pub current_term: u64,
    pub commit_index: u64,
    pub last_applied: u64,
    pub log_length: usize,
    pub cluster_size: usize,
    pub majority_required: usize,
    pub recent_entries: Vec<ConfigEntry>,
}

/// The Chronicle of one node.
pub struct Chronicle {
    pub node_name: String,
    /// Whether this node is the orchestrator.
    pub is_leader: bool,
    /// Raised when the orchestrator changes.
    pub current_term: u64,
    pub log: Vec<ConfigEntry>,
    /// Index of the highest committed entry.
    pub commit_index: u64,
    /// Index of the highest entry applied to local state.
    pub last_applied: u64,
    /// Index of the next entry proposed here.
    pub next_index: u64,
    /// Number of nodes in the cluster.
    pub cluster_size: usize,
}

/// What a [`Chronicle`] stands for.
#[verifier::ext_equal]
pub struct ChronicleView {
    pub node_name: Seq<char>,
    pub is_leader: bool,
    pub term: u64,
    pub log: Seq<EntryView>,
    pub commit_index: u64,
    pub last_applied: u64,
    pub next_index: u64,
    pub cluster_size: usize,
}

/// The smallest number of nodes that is more than half of `size`.
pub open spec fn majority_of(size: int) -> int {
    size / 2 + 1
}

/// The place of the first entry at or after place `i` with that index.
pub open spec fn first_at(log: Seq<EntryView>, index: u64, i: int) -> Option<int>
    decreases log.len() - i,
{
    if i < 0 || i >= log.len() {
        None
    } else if log[i].index == index {
        Some(i)
    } else {
        first_at(log, index, i + 1)
    }
}

/// The place of the first entry at or after place `i` with that index and term.
pub open spec fn first_of_term(log: Seq<EntryView>, index: u64, term: u64, i: int) -> Option<int>
    decreases log.len() - i,
{
    if i < 0 || i >= log.len() {
        None
    } else if log[i].index == index && log[i].term == term {
        Some(i)
    } else {
        first_of_term(log, index, term, i + 1)
    }
}

/// How many of the first `k` entries are committed.
pub open spec fn committed_count(log: Seq<EntryView>, k: int) -> nat
    decreases k,
{
    if k <= 0 {
        0
    } else {
        committed_count(log, k - 1) + if log[k - 1].is_committed() {
            1nat
        } else {
            0nat
        }
    }
}

/// The first `k` entries without the failed ones.
pub open spec fn without_failed(log: Seq<EntryView>, k: int) -> Seq<EntryView>
    decreases k,
{
    if k <= 0 {
        Seq::empty()
    } else if log[k - 1].status == EntryStatus::Failed {
        without_failed(log, k - 1)
    } else {
        without_failed(log, k - 1).push(log[k - 1])
    }
}

/// The first `k` entries without the first `drop` committed ones.
pub open spec fn without_committed(log: Seq<EntryView>, drop: int, k: int) -> Seq<EntryView>
    decreases k,
{
    if k <= 0 {
        Seq::empty()
    } else if log[k - 1].is_committed() && committed_count(log, k - 1) < drop {
        without_committed(log, drop, k - 1)
    } else {
        without_committed(log, drop, k - 1).push(log[k - 1])
    }
}

/// The committed entries among the first `k` that come after an index.
pub open spec fn committed_after(log: Seq<EntryView>, since: u64, k: int) -> Seq<EntryView>
    decreases k,
{
    if k <= 0 {
        Seq::empty()
    } else if log[k - 1].index > since && log[k - 1].is_committed() {
        committed_after(log, since, k - 1).push(log[k - 1])
    } else {
        committed_after(log, since, k - 1)
    }
}

/// The prepared entries among the first `k`.
pub open spec fn prepared_entries(log: Seq<EntryView>, k: int) -> Seq<EntryView>
    decreases k,
{
    if k <= 0 {
        Seq::empty()
    } else if log[k - 1].status == EntryStatus::Prepared {
        prepared_entries(log, k - 1).push(log[k - 1])
    } else {
        prepared_entries(log, k - 1)
    }
}

pub open spec fn larger(a: u64, b: u64) -> u64 {
    if a > b {
        a
    } else {
        b
    }
}

impl ChronicleView {
    /// The Chronicle of a node that is alone and leads.
    pub open spec fn fresh(node_name: Seq<char>) -> Self {
        ChronicleView {
            node_name,
            is_leader: true,
            term: 1,
            log: Seq::empty(),
            commit_index: 0,
            last_applied: 0,
            next_index: 1,
            cluster_size: 1,
        }
    }

    pub open spec fn majority(self) -> usize {
        majority_of(self.cluster_size as int) as usize
    }

    /// The entry that a proposal makes: acknowledged by this node, committed at once where
    /// that is a majority.
    pub open spec fn new_entry(
        self,
        change_type: ConfigChangeType,
        payload: Seq<char>,
        proposed_by: Seq<char>,
        now: i128,
    ) -> EntryView {
        EntryView {
            term: self.term,
            index: self.next_index,
            change_type,
            payload,
            proposed_by,
            status: if self.majority() <= 1 {
                EntryStatus::Committed
            } else {
                EntryStatus::Prepared
            },
            acks: seq![self.node_name],
            required_acks: self.majority(),
            timestamp: now,
        }
    }

    /// The state after the leader took up a proposal.
    pub open spec fn proposed(self, entry: EntryView) -> Self {
        let taken = ChronicleView {
            log: self.log.push(entry),
            next_index: (self.next_index + 1) as u64,
            ..self
        };
        if entry.is_committed() {
            ChronicleView { commit_index: entry.index, last_applied: entry.index, ..taken }
        } else {
            taken
        }
    }

    /// Whether the log has an entry of that term and index.
    pub open spec fn has_entry(self, term: u64, index: u64) -> bool {
        exists|i: int|
            0 <= i < self.log.len() && (#[trigger] self.log[i]).term == term && self.log[i].index
                == index
    }

    /// The state after a prepare request from a leader that is not stale.
    pub open spec fn prepared(self, entry: EntryView, leader_term: u64, leader_commit: u64) -> Self {
        let log = if self.has_entry(entry.term, entry.index) {
            self.log
        } else {
            self.log.push(entry)
        };
        ChronicleView {
            term: larger(self.term, leader_term),
            log: Seq::new(
                log.len(),
                |i: int|
                    if log[i].index <= leader_commit && log[i].status == EntryStatus::Prepared {
                        log[i].with_status(EntryStatus::Committed)
                    } else {
                        log[i]
                    },
            ),
            commit_index: larger(self.commit_index, leader_commit),
            ..self
        }
    }

    /// An entry after an acknowledgement by a node.
    pub open spec fn acked_entry(entry: EntryView, node: Seq<char>) -> EntryView {
        let acks = if entry.acks.contains(node) {
            entry.acks
        } else {
            entry.acks.push(node)
        };
        EntryView {
            acks,
            status: if acks.len() >= entry.required_acks && entry.status == EntryStatus::Prepared {
                EntryStatus::Committed
            } else {
                entry.status
            },
            ..entry
        }
    }

    /// Whether an acknowledgement commits an entry.
    pub open spec fn ack_commits(self, index: u64, node: Seq<char>) -> bool {
        match first_at(self.log, index, 0) {
            Some(i) => self.log[i].status == EntryStatus::Prepared && Self::acked_entry(
                self.log[i],
                node,
            ).is_committed(),
            None => false,
        }
    }

    /// The state after an acknowledgement.
    pub open spec fn acked(self, index: u64, node: Seq<char>) -> Self {
        match first_at(self.log, index, 0) {
            Some(i) => {
                let s = ChronicleView {
                    log: self.log.update(i, Self::acked_entry(self.log[i], node)),
                    ..self
                };
                if self.ack_commits(index, node) {
                    ChronicleView {
                        commit_index: larger(self.commit_index, index),
                        last_applied: larger(self.last_applied, index),
                        ..s
                    }
                } else {
                    s
                }
            },
            None => self,
        }
    }

    /// The state after a notice that an entry is committed.
    pub open spec fn notified(self, index: u64, term: u64) -> Self {
        ChronicleView {
            log: match first_of_term(self.log, index, term, 0) {
                Some(i) => self.log.update(i, self.log[i].with_status(EntryStatus::Committed)),
                None => self.log,
            },
            commit_index: larger(self.commit_index, index),
            last_applied: larger(self.last_applied, index),
            ..self
        }
    }

    /// The state after dropping failed entries and the oldest committed ones beyond `keep`.
    pub open spec fn collected(self, keep: int) -> Self {
        let live = without_failed(self.log, self.log.len() as int);
        let drop = committed_count(live, live.len() as int) - keep;
        ChronicleView { log: without_committed(live, drop, live.len() as int), ..self }
    }

    /// The state after failing the entries that have been prepared for too long.
    pub open spec fn expired(self, now: i128, timeout_secs: i64) -> Self {
        ChronicleView {
            log: Seq::new(
                self.log.len(),
                |i: int|
                    if self.log[i].status == EntryStatus::Prepared && seconds_between(
                        now as int,
                        self.log[i].timestamp as int,
                    ) > timeout_secs {
                        self.log[i].with_status(EntryStatus::Failed)
                    } else {
                        self.log[i]
                    },
            ),
            ..self
        }
    }
}

/// The answer to a stale leader.
pub open spec fn stale_reason(leader_term: u64, my_term: u64) -> Seq<char> {
    "Stale leader term "@ + dec(leader_term as nat) + " < my term "@ + dec(my_term as nat)
}

impl View for Chronicle {
    type V = ChronicleView;

    open spec fn view(&self) -> ChronicleView {
        ChronicleView {
            node_name: self.node_name@,
            is_leader: self.is_leader,
            term: self.current_term,
            log: entry_views(self.log@),
            commit_index: self.commit_index,
            last_applied: self.last_applied,
            next_index: self.next_index,
            cluster_size: self.cluster_size,
        }
    }
}

impl Chronicle {
    /// A single node starts as leader.
    pub fn new(node_name: String) -> (r: Self)
        ensures
            r@ == ChronicleView::fresh(node_name@),
    {
        let r = Chronicle {
            node_name,
            is_leader: true,
            current_term: 1,
            log: Vec::new(),
            commit_index: 0,
            last_applied: 0,
            next_index: 1,
            cluster_size: 1,
        };
        assert(r@.log =~= Seq::<EntryView>::empty());
        r
    }

    /// Sets the number of nodes, at least one.
    pub fn update_cluster_size(&mut self, size: usize)
        ensures
            final(self)@ == (ChronicleView {
                cluster_size: if size < 1 {
                    1
                } else {
                    size
                },
                ..old(self)@
            }),
    {
        self.cluster_size = if size < 1 {
            1
        } else {
            size
        };
    }

    /// The number of acknowledgements that commits an entry.
    pub fn majority(&self) -> (r: usize)
        ensures
            r == self@.majority(),
            r == majority_of(self@.cluster_size as int),
    {
        self.cluster_size / 2 + 1
    }

    /// Makes this node the leader or a follower.
    pub fn set_leader(&mut self, is_leader: bool)
        ensures
            final(self)@ == (ChronicleView { is_leader, ..old(self)@ }),
    {
        self.is_leader = is_leader;
    }

    /// Starts a new term.
    pub fn new_term(&mut self)
        requires
            old(self)@.term < u64::MAX,
        ensures
            final(self)@ == (ChronicleView { term: (old(self)@.term + 1) as u64, ..old(self)@ }),
    {
        self.current_term = self.current_term + 1;
    }

    /// Whether this node is the leader.
    pub fn is_leader(&self) -> (r: bool)
        ensures
            r == self@.is_leader,
    {
        self.is_leader
    }

    /// Proposes a change at a given time. The leader appends an entry, which is committed at
    /// once in a cluster of one node; a follower refuses.
    pub fn propose_at(&mut self, proposal: ConfigProposal, now: i128) -> (r: Result<
        ConfigEntry,
        String,
    >)
        requires
            old(self)@.next_index < u64::MAX,
        ensures
            match r {
                Ok(entry) => {
                    let e = old(self)@.new_entry(
                        proposal.change_type,
                        proposal.payload@,
                        proposal.proposed_by@,
                        now,
                    );
                    old(self)@.is_leader && entry@ == e && final(self)@ == old(self)@.proposed(e)
                },
                Err(msg) => !old(self)@.is_leader && final(self)@ == old(self)@ && msg@
                    == "Not the orchestrator — proposal must be forwarded to leader"@,
            },
    {
        if !self.is_leader {
            return Err(
                "Not the orchestrator — proposal must be forwarded to leader".to_owned(),
            );
        }
        let ghost before = self@;
        let majority: usize = self.majority();
        let index: u64 = self.next_index;
        let mut acks: Vec<String> = Vec::new();
        acks.push(self.node_name.clone());
        let ConfigProposal { change_type, payload, proposed_by } = proposal;
        let entry = ConfigEntry {
            term: self.current_term,
            index,
            change_type,
            payload,
            proposed_by,
            status: if majority <= 1 {
                EntryStatus::Committed
            } else {
                EntryStatus::Prepared
            },
            acks,
            required_acks: majority,
            timestamp: now,
        };
        assert(texts(entry.acks@) =~= seq![before.node_name]);
        self.next_index = index + 1;
        let ghost log_before = self.log@;
        self.log.push(entry.copy());
        assert(entry_views(self.log@) =~= entry_views(log_before).push(entry@));
        if majority <= 1 {
            self.commit_index = index;
            self.last_applied = index;
        }
        Ok(entry)
    }

    /// Proposes a change now.
    pub fn propose(&mut self, proposal: ConfigProposal) -> (r: Result<ConfigEntry, String>)
        requires
            old(self)@.next_index < u64::MAX,
        ensures
            match r {
                Ok(entry) => {
                    let e = old(self)@.new_entry(
                        proposal.change_type,
                        proposal.payload@,
                        proposal.proposed_by@,
                        entry.timestamp,
                    );
                    old(self)@.is_leader && entry@ == e && final(self)@ == old(self)@.proposed(e)
                },
                Err(msg) => !old(self)@.is_leader && final(self)@ == old(self)@ && msg@
                    == "Not the orchestrator — proposal must be forwarded to leader"@,
            },
    {
        let now: i128 = utc_now();
        self.propose_at(proposal, now)
    }

    /// The request that asks a follower to replicate an entry.
    pub fn build_prepare_request(&self, entry: &ConfigEntry) -> (r: PrepareRequest)
        ensures
            r.entry@ == entry@,
            r.leader_term == self@.term,
            r.leader_commit_index == self@.commit_index,
    {
        PrepareRequest {
            entry: entry.copy(),
            leader_term: self.current_term,
            leader_commit_index: self.commit_index,
        }
    }

    /// Whether the log has an entry of that term and index.
    fn has(&self, term: u64, index: u64) -> (r: bool)
        ensures
            r == self@.has_entry(term, index),
    {
        let mut i: usize = 0;
        while i < self.log.len()
            invariant
                i <= self.log@.len(),
                forall|k: int|
                    0 <= k < i ==> !((#[trigger] self@.log[k]).term == term && self@.log[k].index
                        == index),
            decreases self.log@.len() - i,
        {
            if self.log[i].term == term && self.log[i].index == index {
                assert(self@.log[i as int].term == term);
                return true;
            }
            i = i + 1;
        }
        false
    }

    /// Handles a prepare request on a follower: refuses a stale leader, else takes over the
    /// leader's term, the entry and what the leader has committed.
    pub fn handle_prepare(&mut self, req: &PrepareRequest) -> (r: PrepareResponse)
        ensures
            r.node@ == old(self)@.node_name,
            r.term == old(self)@.term,
            r.index == req.entry.index,
            r.success == (req.leader_term >= old(self)@.term),
            match r.reason {
                Some(text) => !r.success && text@ == stale_reason(req.leader_term, old(self)@.term),
                None => r.success,
            },
            final(self)@ == if r.success {
                old(self)@.prepared(req.entry@, req.leader_term, req.leader_commit_index)
            } else {
                old(self)@
            },
    {
        let my_term: u64 = self.current_term;
        if req.leader_term < my_term {
            let mut reason = "Stale leader term ".to_owned();
            push_dec(&mut reason, req.leader_term);
            reason.append(" < my term ");
            push_dec(&mut reason, my_term);
            return PrepareResponse {
                node: self.node_name.clone(),
                term: my_term,
                index: req.entry.index,
                success: false,
                reason: Some(reason),
            };
        }
        let ghost before = self@;
        if req.leader_term > self.current_term {
            self.current_term = req.leader_term;
        }
        let ghost log0 = self.log@;
        if !self.has(req.entry.term, req.entry.index) {
            self.log.push(req.entry.copy());
            assert(entry_views(self.log@) =~= before.log.push(req.entry@));
        }
        let ghost mid = entry_views(self.log@);
        assert(mid == if before.has_entry(req.entry.term, req.entry.index) {
            before.log
        } else {
            before.log.push(req.entry@)
        }) by {
            assert(before.log == entry_views(log0));
        }
        let ghost base = *self;
        let mut i: usize = 0;
        while i < self.log.len()
            invariant
                i <= self.log@.len(),
                self.log@.len() == mid.len(),
                self.node_name == base.node_name,
                self.is_leader == base.is_leader,
                self.current_term == base.current_term,
                self.commit_index == base.commit_index,
                self.last_applied == base.last_applied,
                self.next_index == base.next_index,
                self.cluster_size == base.cluster_size,
                forall|k: int|
                    0 <= k < i ==> #[trigger] self.log@[k]@ == if mid[k].index
                        <= req.leader_commit_index && mid[k].status == EntryStatus::Prepared {
                        mid[k].with_status(EntryStatus::Committed)
                    } else {
                        mid[k]
                    },
                forall|k: int| i <= k < mid.len() ==> #[trigger] self.log@[k]@ == mid[k],
            decreases self.log@.len() - i,
        {
            assert(self.log@[i as int]@ == mid[i as int]);
            if self.log[i].index <= req.leader_commit_index && self.log[i].status
                == EntryStatus::Prepared {
                let ghost entry0 = self.log@[i as int];
                let e = &mut self.log[i];
                e.status = EntryStatus::Committed;
                assert(self.log@[i as int]@ =~= entry0@.with_status(EntryStatus::Committed));
            }
            i = i + 1;
        }
        if req.leader_commit_index > self.commit_index {
            self.commit_index = req.leader_commit_index;
        }
        assert(self@ =~= before.prepared(req.entry@, req.leader_term, req.leader_commit_index));
        PrepareResponse {
            node: self.node_name.clone(),
            term: my_term,
            index: req.entry.index,
            success: true,
            reason: None,
        }
    }

    /// Records the acknowledgement of a node. Returns the entry if it is committed by it.
    pub fn process_ack(&mut self, index: u64, node_name: &str) -> (r: Option<ConfigEntry>)
        ensures
            final(self)@ == old(self)@.acked(index, node_name@),
            match r {
                Some(e) => old(self)@.ack_commits(index, node_name@) && e@ == final(self)@.log[first_at(old(self)@.log, index, 0)->0],
                None => !old(self)@.ack_commits(index, node_name@),
            },
    {
        let ghost before = self@;
        let mut i: usize = 0;
        while i < self.log.len() && self.log[i].index != index
            invariant
                i <= self.log@.len(),
                before == self@,
                first_at(before.log, index, 0) == first_at(before.log, index, i as int),
            decreases self.log@.len() - i,
        {
            assert(before.log[i as int].index == self.log@[i as int].index);
            i = i + 1;
        }
        if i == self.log.len() {
            return None;
        }
        assert(before.log[i as int].index == index);
        let ghost log0 = self.log@;
        let was_prepared = self.log[i].status == EntryStatus::Prepared;
        let known = contains_text(&self.log[i].acks, node_name);
        let entry = &mut self.log[i];
        let ghost entry0 = *entry;
        if !known {
            entry.acks.push(node_name.to_owned());
            assert(texts(entry.acks@) =~= texts(entry0.acks@).push(node_name@));
        }
        let mut committed: Option<ConfigEntry> = None;
        if entry.acks.len() >= entry.required_acks && was_prepared {
            entry.status = EntryStatus::Committed;
            committed = Some(entry.copy());
        }
        assert(entry@ == ChronicleView::acked_entry(entry0@, node_name@));
        assert(entry_views(self.log@) =~= before.log.update(
            i as int,
            ChronicleView::acked_entry(before.log[i as int], node_name@),
        ));
        if committed.is_some() {
            if index > self.commit_index {
                self.commit_index = index;
            }
            if index > self.last_applied {
                self.last_applied = index;
            }
        }
        committed
    }

    /// Handles the notice that an entry is committed.
    pub fn apply_commit(&mut self, notification: &CommitNotification)
        ensures
            final(self)@ == old(self)@.notified(notification.index, notification.term),
    {
        let ghost before = self@;
        let mut i: usize = 0;
        while i < self.log.len() && !(self.log[i].index == notification.index && self.log[i].term
            == notification.term)
            invariant
                i <= self.log@.len(),
                before == self@,
                first_of_term(before.log, notification.index, notification.term, 0)
                    == first_of_term(
                    before.log,
                    notification.index,
                    notification.term,
                    i as int,
                ),
            decreases self.log@.len() - i,
        {
            assert(before.log[i as int].index == self.log@[i as int].index);
            i = i + 1;
        }
        if i < self.log.len() {
            assert(before.log[i as int].index == notification.index);
            let e = &mut self.log[i];
            e.status = EntryStatus::Committed;
            assert(entry_views(self.log@) =~= before.log.update(
                i as int,
                before.log[i as int].with_status(EntryStatus::Committed),
            ));
        }
        if notification.index > self.commit_index {
            self.commit_index = notification.index;
        }
        if notification.index > self.last_applied {
            self.last_applied = notification.index;
        }
    }

    /// The state for monitoring, with the last fifty entries, the latest first.
    pub fn get_snapshot(&self) -> (r: ChronicleSnapshot)
        ensures
            r.node_name@ == self@.node_name,
            r.is_leader == self@.is_leader,
            r.current_term == self@.term,
            r.commit_index == self@.commit_index,
            r.last_applied == self@.last_applied,
            r.log_length == self@.log.len(),
            r.cluster_size == self@.cluster_size,
            r.majority_required == self@.majority(),
            entry_views(r.recent_entries@) == Seq::new(
                if self@.log.len() < 50 {
                    self@.log.len()
                } else {
                    50
                },
                |i: int| self@.log[self@.log.len() - 1 - i],
            ),
    {
        let n: usize = self.log.len();
        let count: usize = if n < 50 {
            n
        } else {
            50
        };
        let mut recent: Vec<ConfigEntry> = Vec::new();
        let mut i: usize = 0;
        while i < count
            invariant
                i <= count <= n,
                n == self.log@.len(),
                recent@.len() == i,
                forall|k: int| 0 <= k < i ==> #[trigger] recent@[k]@ == self@.log[n - 1 - k],
            decreases count - i,
        {
            recent.push(self.log[n - 1 - i].copy());
            i = i + 1;
        }
        assert(entry_views(recent@) =~= Seq::new(
            count as nat,
            |i: int| self@.log[self@.log.len() - 1 - i],
        ));
        ChronicleSnapshot {
            node_name: self.node_name.clone(),
            is_leader: self.is_leader,
            current_term: self.current_term,
            commit_index: self.commit_index,
            last_applied: self.last_applied,
            log_length: n,
            cluster_size: self.cluster_size,
            majority_required: self.majority(),
            recent_entries: recent,
        }
    }

    /// All committed entries after an index.
    pub fn get_committed_since(&self, since_index: u64) -> (r: Vec<ConfigEntry>)
        ensures
            entry_views(r@) == committed_after(self@.log, since_index, self@.log.len() as int),
    {
        let mut out: Vec<ConfigEntry> = Vec::new();
        let mut k: usize = 0;
        assert(entry_views(out@) =~= committed_after(self@.log, since_index, 0));
        while k < self.log.len()
            invariant
                k <= self.log@.len(),
                entry_views(out@) == committed_after(self@.log, since_index, k as int),
            decreases self.log@.len() - k,
        {
            let ghost before = out@;
            assert(self@.log[k as int] == self.log@[k as int]@);
            if self.log[k].index > since_index && self.log[k].status == EntryStatus::Committed {
                out.push(self.log[k].copy());
                assert(entry_views(out@) =~= entry_views(before).push(self@.log[k as int]));
            }
            k = k + 1;
        }
        out
    }

    /// All prepared entries.
    pub fn get_uncommitted(&self) -> (r: Vec<ConfigEntry>)
        ensures
            entry_views(r@) == prepared_entries(self@.log, self@.log.len() as int),
    {
        let mut out: Vec<ConfigEntry> = Vec::new();
        let mut k: usize = 0;
        assert(entry_views(out@) =~= prepared_entries(self@.log, 0));
        while k < self.log.len()
            invariant
                k <= self.log@.len(),
                entry_views(out@) == prepared_entries(self@.log, k as int),
            decreases self.log@.len() - k,
        {
            let ghost before = out@;
            assert(self@.log[k as int] == self.log@[k as int]@);
            if self.log[k].status == EntryStatus::Prepared {
                out.push(self.log[k].copy());
                assert(entry_views(out@) =~= entry_views(before).push(self@.log[k as int]));
            }
            k = k + 1;
        }
        out
    }

    pub fn log_length(&self) -> (r: usize)
        ensures
            r == self@.log.len(),
    {
        self.log.len()
    }

    pub fn get_commit_index(&self) -> (r: u64)
        ensures
            r == self@.commit_index,
    {
        self.commit_index
    }

    pub fn get_term(&self) -> (r: u64)
        ensures
            r == self@.term,
    {
        self.current_term
    }

    /// Drops failed entries, and the oldest committed entries beyond the last `keep_committed`.
    pub fn gc_old_entries(&mut self, keep_committed: usize)
        ensures
            final(self)@ == old(self)@.collected(keep_committed as int),
    {
        let ghost before = self@;
        let mut live: Vec<ConfigEntry> = Vec::new();
        let mut committed: usize = 0;
        let mut k: usize = 0;
        assert(entry_views(live@) =~= without_failed(before.log, 0));
        while k < self.log.len()
            invariant
                k <= self.log@.len(),
                before == self@,
                entry_views(live@) == without_failed(before.log, k as int),
                committed <= live@.len() <= k,
                committed == committed_count(entry_views(live@), live@.len() as int),
            decreases self.log@.len() - k,
        {
            let ghost prior = live@;
            assert(before.log[k as int] == self.log@[k as int]@);
            if self.log[k].status != EntryStatus::Failed {
                if self.log[k].status == EntryStatus::Committed {
                    committed = committed + 1;
                }
                live.push(self.log[k].copy());
                proof {
                    assert(entry_views(live@) =~= entry_views(prior).push(before.log[k as int]));
                    lemma_committed_count_prefix(
                        entry_views(live@),
                        entry_views(prior),
                        prior.len() as int,
                    );
                }
            }
            k = k + 1;
        }
        let ghost all = entry_views(live@);
        let ghost drop = committed - keep_committed;
        let to_remove: usize = if committed > keep_committed {
            committed - keep_committed
        } else {
            0
        };
        let mut kept: Vec<ConfigEntry> = Vec::new();
        let mut seen: usize = 0;
        let mut j: usize = 0;
        assert(entry_views(kept@) =~= without_committed(all, drop, 0));
        while j < live.len()
            invariant
                j <= live@.len(),
                seen <= j,
                all == entry_views(live@),
                to_remove == if drop > 0 {
                    drop
                } else {
                    0
                },
                seen == committed_count(all, j as int),
                entry_views(kept@) == without_committed(all, drop, j as int),
            decreases live@.len() - j,
        {
            let ghost prior = kept@;
            assert(all[j as int] == live@[j as int]@);
            let is_committed = live[j].status == EntryStatus::Committed;
            if !(is_committed && seen < to_remove) {
                kept.push(live[j].copy());
                assert(entry_views(kept@) =~= entry_views(prior).push(all[j as int]));
            }
            if is_committed {
                seen = seen + 1;
            }
            j = j + 1;
        }
        self.log = kept;
    }

    /// Fails the entries that have been prepared for more than `timeout_secs` at time `now`.
    pub fn fail_timed_out_entries_at(&mut self, timeout_secs: i64, now: i128)
        ensures
            final(self)@ == old(self)@.expired(now, timeout_secs),
    {
        let ghost before = self@;
        let ghost base = *self;
        let mut i: usize = 0;
        while i < self.log.len()
            invariant
                i <= self.log@.len(),
                self.log@.len() == before.log.len(),
                before == base@,
                self.node_name == base.node_name,
                self.is_leader == base.is_leader,
                self.current_term == base.current_term,
                self.commit_index == base.commit_index,
                self.last_applied == base.last_applied,
                self.next_index == base.next_index,
                self.cluster_size == base.cluster_size,
                forall|k: int|
                    0 <= k < i ==> #[trigger] self.log@[k]@ == before.expired(
                        now,
                        timeout_secs,
                    ).log[k],
                forall|k: int| i <= k < before.log.len() ==> #[trigger] self.log@[k]@ == before.log[k],
            decreases self.log@.len() - i,
        {
            assert(self.log@[i as int]@ == before.log[i as int]);
            if self.log[i].status == EntryStatus::Prepared && seconds_since(
                now,
                self.log[i].timestamp,
            ) > timeout_secs as i128 {
                let ghost entry0 = self.log@[i as int];
                let e = &mut self.log[i];
                e.status = EntryStatus::Failed;
                assert(self.log@[i as int]@ =~= entry0@.with_status(EntryStatus::Failed));
            }
            i = i + 1;
        }
        assert(self@ =~= before.expired(now, timeout_secs));
    }

    /// Fails the entries that have been prepared for more than `timeout_secs`.
    pub fn fail_timed_out_entries(&mut self, timeout_secs: i64)
        ensures
            exists|now: i128| final(self)@ == old(self)@.expired(now, timeout_secs),
    {
        let now: i128 = utc_now();
        self.fail_timed_out_entries_at(timeout_secs, now);
    }
}

proof fn lemma_committed_count_prefix(a: Seq<EntryView>, b: Seq<EntryView>, k: int)
    requires
        k <= a.len(),
        k <= b.len(),
        forall|i: int| 0 <= i < k ==> a[i] == b[i],
    ensures
        committed_count(a, k) == committed_count(b, k),
    decreases k,
{
    if k > 0 {
        lemma_committed_count_prefix(a, b, k - 1);
    }
}

// ---- Laws ----

/// Two majorities of the same cluster have a node in common.
pub proof fn law_majorities_intersect(
    cluster: Set<Seq<char>>,
    a: Set<Seq<char>>,
    b: Set<Seq<char>>,
)
    requires
        cluster.finite(),
        a.subset_of(cluster),
        b.subset_of(cluster),
        a.len() >= majority_of(cluster.len() as int),
        b.len() >= majority_of(cluster.len() as int),
    ensures
        exists|node: Seq<char>| a.contains(node) && b.contains(node),
{
    vstd::set_lib::lemma_len_subset(a, cluster);
    vstd::set_lib::lemma_len_subset(b, cluster);
    if a.disjoint(b) {
        vstd::set_lib::lemma_set_disjoint_lens(a, b);
        vstd::set_lib::lemma_len_subset(a + b, cluster);
        assert(false);
    }
    let node = choose|node: Seq<char>| a.contains(node) && b.contains(node);
    assert(a.contains(node) && b.contains(node));
}

/// A leader that is not stale may send the same prepare request twice: the second one
/// changes nothing.
pub proof fn law_prepare_is_idempotent(
    s: ChronicleView,
    entry: EntryView,
    leader_term: u64,
    leader_commit: u64,
)
    ensures
        s.prepared(entry, leader_term, leader_commit).prepared(entry, leader_term, leader_commit)
            == s.prepared(entry, leader_term, leader_commit),
{
    let once = s.prepared(entry, leader_term, leader_commit);
    assert(once.has_entry(entry.term, entry.index)) by {
        if s.has_entry(entry.term, entry.index) {
            let i = choose|i: int|
                0 <= i < s.log.len() && (#[trigger] s.log[i]).term == entry.term && s.log[i].index
                    == entry.index;
            assert(once.log[i].term == entry.term && once.log[i].index == entry.index);
        } else {
            let i = s.log.len() as int;
            assert(once.log[i].term == entry.term && once.log[i].index == entry.index);
        }
    }
    let twice = once.prepared(entry, leader_term, leader_commit);
    assert(twice.log =~= once.log);
    assert(twice =~= once);
}

/// After a prepare request the follower has an entry of that term and index, and has
/// committed what the leader has.
pub proof fn law_prepare_replicates(
    s: ChronicleView,
    entry: EntryView,
    leader_term: u64,
    leader_commit: u64,
)
    ensures
        s.prepared(entry, leader_term, leader_commit).has_entry(entry.term, entry.index),
        s.prepared(entry, leader_term, leader_commit).commit_index >= leader_commit,
        forall|i: int|
            0 <= i < s.prepared(entry, leader_term, leader_commit).log.len() ==> (
            #[trigger] s.prepared(entry, leader_term, leader_commit).log[i]).index <= leader_commit
                ==> s.prepared(entry, leader_term, leader_commit).log[i].status
                != EntryStatus::Prepared,
{
    law_prepare_is_idempotent(s, entry, leader_term, leader_commit);
    let once = s.prepared(entry, leader_term, leader_commit);
    if s.has_entry(entry.term, entry.index) {
        let i = choose|i: int|
            0 <= i < s.log.len() && (#[trigger] s.log[i]).term == entry.term && s.log[i].index
                == entry.index;
        assert(once.log[i].term == entry.term && once.log[i].index == entry.index);
    } else {
        let i = s.log.len() as int;
        assert(once.log[i].term == entry.term && once.log[i].index == entry.index);
    }
}

/// A committed entry stays committed, whatever requests, acknowledgements, notices and
/// time-outs follow.
pub proof fn law_committed_stays_committed(
    s: ChronicleView,
    i: int,
    entry: EntryView,
    leader_term: u64,
    leader_commit: u64,
    index: u64,
    term: u64,
    node: Seq<char>,
    now: i128,
    timeout_secs: i64,
)
    requires
        0 <= i < s.log.len(),
        s.log[i].is_committed(),
    ensures
        s.prepared(entry, leader_term, leader_commit).log[i].is_committed(),
        s.acked(index, node).log[i].is_committed(),
        s.notified(index, term).log[i].is_committed(),
        s.expired(now, timeout_secs).log[i].is_committed(),
        s.proposed(entry).log[i].is_committed(),
{
    lemma_found_in_log(s.log, index, term, 0);
}

proof fn lemma_found_in_log(log: Seq<EntryView>, index: u64, term: u64, i: int)
    requires
        0 <= i <= log.len(),
    ensures
        first_at(log, index, i) is Some ==> 0 <= first_at(log, index, i)->0 < log.len(),
        first_of_term(log, index, term, i) is Some ==> 0 <= first_of_term(log, index, term, i)->0
            < log.len(),
    decreases log.len() - i,
{
    if i < log.len() {
        lemma_found_in_log(log, index, term, i + 1);
    }
}

/// No request, acknowledgement or notice moves the commit index back.
pub proof fn law_commit_index_never_falls(
    s: ChronicleView,
    entry: EntryView,
    leader_term: u64,
    leader_commit: u64,
    index: u64,
    term: u64,
    node: Seq<char>,
    now: i128,
    timeout_secs: i64,
    keep: int,
)
    ensures
        s.prepared(entry, leader_term, leader_commit).commit_index >= s.commit_index,
        s.acked(index, node).commit_index >= s.commit_index,
        s.notified(index, term).commit_index >= s.commit_index,
        s.expired(now, timeout_secs).commit_index == s.commit_index,
        s.collected(keep).commit_index == s.commit_index,
{
}

/// A proposal does not move the commit index back on a node that has committed nothing
/// beyond its own entries.
pub proof fn law_proposal_does_not_lower_commit_index(
    s: ChronicleView,
    change_type: ConfigChangeType,
    payload: Seq<char>,
    proposed_by: Seq<char>,
    now: i128,
)
    requires
        s.commit_index <= s.next_index,
        s.next_index < u64::MAX,
    ensures
        s.proposed(s.new_entry(change_type, payload, proposed_by, now)).commit_index
            >= s.commit_index,
        s.proposed(s.new_entry(change_type, payload, proposed_by, now)).next_index
            == s.next_index + 1,
{
}

/// The state after the acknowledgements of `nodes`, one after the other.
pub open spec fn acked_by(s: ChronicleView, index: u64, nodes: Seq<Seq<char>>) -> ChronicleView
    decreases nodes.len(),
{
    if nodes.len() == 0 {
        s
    } else {
        acked_by(s, index, nodes.drop_last()).acked(index, nodes.last())
    }
}

proof fn lemma_first_at(log: Seq<EntryView>, index: u64, i: int, p: int)
    requires
        0 <= i <= p < log.len(),
        log[p].index == index,
        forall|k: int| i <= k < p ==> (#[trigger] log[k]).index != index,
    ensures
        first_at(log, index, i) == Some(p),
    decreases p - i,
{
    if i < p {
        lemma_first_at(log, index, i + 1, p);
    }
}

/// A proposed entry is committed exactly when the leader and the nodes that acknowledged it
/// are a majority of the cluster; the cluster is of more than one node, and the index is
/// new in the log.
pub proof fn law_majority_commits(
    s: ChronicleView,
    change_type: ConfigChangeType,
    payload: Seq<char>,
    proposed_by: Seq<char>,
    now: i128,
    nodes: Seq<Seq<char>>,
)
    requires
        s.next_index < u64::MAX,
        forall|i: int| 0 <= i < s.log.len() ==> (#[trigger] s.log[i]).index != s.next_index,
        nodes.no_duplicates(),
        !nodes.contains(s.node_name),
    ensures
        ({
            let e = s.new_entry(change_type, payload, proposed_by, now);
            let after = acked_by(s.proposed(e), e.index, nodes);
            let place = s.log.len() as int;
            &&& after.log.len() == place + 1
            &&& after.log[place].acks == seq![s.node_name] + nodes
            &&& after.log[place].is_committed() == (1 + nodes.len() >= s.majority())
            &&& !after.log[place].is_committed() ==> after.log[place].status
                == EntryStatus::Prepared
            &&& after.log[place].index == e.index
            &&& after.log[place].required_acks == s.majority()
            &&& forall|i: int| 0 <= i < place ==> after.log[i] == s.log[i]
        }),
    decreases nodes.len(),
{
    let e = s.new_entry(change_type, payload, proposed_by, now);
    let place = s.log.len() as int;
    if nodes.len() == 0 {
        assert(seq![s.node_name] + nodes =~= seq![s.node_name]);
    } else {
        let rest = nodes.drop_last();
        assert(!rest.contains(s.node_name)) by {
            if rest.contains(s.node_name) {
                let i = choose|i: int| 0 <= i < rest.len() && rest[i] == s.node_name;
                assert(nodes[i] == s.node_name);
                assert(nodes.contains(s.node_name));
            }
        }
        law_majority_commits(s, change_type, payload, proposed_by, now, rest);
        let before = acked_by(s.proposed(e), e.index, rest);
        lemma_first_at(before.log, e.index, 0, place);
        let acks = before.log[place].acks;
        assert(nodes.contains(nodes.last()));
        assert(!acks.contains(nodes.last())) by {
            if acks.contains(nodes.last()) {
                let i = choose|i: int| 0 <= i < acks.len() && acks[i] == nodes.last();
                if i > 0 {
                    assert(acks[i] == nodes[i - 1]);
                }
            }
        }
        assert(acks.push(nodes.last()) =~= seq![s.node_name] + nodes);
    }
}

proof fn lemma_collected_counts(log: Seq<EntryView>, drop: int, k: int)
    requires
        0 <= k <= log.len(),
        0 <= drop,
    ensures
        ({
            let out = without_committed(log, drop, k);
            let c = committed_count(log, k);
            committed_count(out, out.len() as int) == if c > drop {
                (c - drop) as nat
            } else {
                0
            }
        }),
    decreases k,
{
    if k > 0 {
        lemma_collected_counts(log, drop, k - 1);
        let rest = without_committed(log, drop, k - 1);
        let out = without_committed(log, drop, k);
        if out.len() > rest.len() {
            lemma_committed_count_prefix(out, rest, rest.len() as int);
        }
    }
}

/// Collecting old entries leaves the last `keep` committed entries, or all if there are
/// fewer; nothing else but failed entries is dropped.
pub proof fn law_collection_keeps_the_latest(s: ChronicleView, keep: nat)
    ensures
        ({
            let live = without_failed(s.log, s.log.len() as int);
            let c = committed_count(live, live.len() as int);
            let out = s.collected(keep as int).log;
            committed_count(out, out.len() as int) == if c > keep {
                keep
            } else {
                c
            }
        }),
{
    let live = without_failed(s.log, s.log.len() as int);
    let c = committed_count(live, live.len() as int) as int;
    if c > keep {
        lemma_collected_counts(live, c - keep, live.len() as int);
    } else {
        lemma_nothing_dropped(live, c - keep, live.len() as int);
        assert(live.take(live.len() as int) =~= live);
    }
}

proof fn lemma_nothing_dropped(log: Seq<EntryView>, drop: int, k: int)
    requires
        0 <= k <= log.len(),
        drop <= 0,
    ensures
        without_committed(log, drop, k) == log.take(k),
    decreases k,
{
    if k > 0 {
        lemma_nothing_dropped(log, drop, k - 1);
        assert(log.take(k) =~= log.take(k - 1).push(log[k - 1]));
    } else {
        assert(log.take(0) =~= Seq::<EntryView>::empty());
    }
}

/// Whether no entry counts the acknowledgement of a node twice.
pub open spec fn acks_are_distinct(log: Seq<EntryView>) -> bool {
    forall|i: int| 0 <= i < log.len() ==> (#[trigger] log[i]).acks.no_duplicates()
}

proof fn lemma_live_acks(log: Seq<EntryView>, k: int)
    requires
        0 <= k <= log.len(),
        acks_are_distinct(log),
    ensures
        acks_are_distinct(without_failed(log, k)),
    decreases k,
{
    if k > 0 {
        lemma_live_acks(log, k - 1);
    }
}

proof fn lemma_kept_acks(log: Seq<EntryView>, drop: int, k: int)
    requires
        0 <= k <= log.len(),
        acks_are_distinct(log),
    ensures
        acks_are_distinct(without_committed(log, drop, k)),
    decreases k,
{
    if k > 0 {
        lemma_kept_acks(log, drop, k - 1);
    }
}

/// The acknowledgement of a node counts once: a fresh log holds no node twice in an entry, and no
/// proposal, acknowledgement, notice, time-out or collection brings that about, nor a request to
/// prepare an entry that does not hold a node twice itself.
pub proof fn law_acknowledgements_count_once(
    s: ChronicleView,
    change_type: ConfigChangeType,
    payload: Seq<char>,
    proposed_by: Seq<char>,
    entry: EntryView,
    leader_term: u64,
    leader_commit: u64,
    index: u64,
    term: u64,
    node: Seq<char>,
    now: i128,
    timeout_secs: i64,
    keep: int,
)
    requires
        acks_are_distinct(s.log),
    ensures
        acks_are_distinct(ChronicleView::fresh(node).log),
        acks_are_distinct(s.proposed(s.new_entry(change_type, payload, proposed_by, now)).log),
        entry.acks.no_duplicates() ==> acks_are_distinct(
            s.prepared(entry, leader_term, leader_commit).log,
        ),
        acks_are_distinct(s.acked(index, node).log),
        acks_are_distinct(s.notified(index, term).log),
        acks_are_distinct(s.expired(now, timeout_secs).log),
        acks_are_distinct(s.collected(keep).log),
{
    lemma_found_in_log(s.log, index, term, 0);
    if first_at(s.log, index, 0) is Some {
        let e = s.log[first_at(s.log, index, 0)->0];
        assert(ChronicleView::acked_entry(e, node).acks.no_duplicates());
    }
    let live = without_failed(s.log, s.log.len() as int);
    lemma_live_acks(s.log, s.log.len() as int);
    lemma_kept_acks(live, committed_count(live, live.len() as int) - keep, live.len() as int);
}

proof fn lemma_first_of_term(log: Seq<EntryView>, index: u64, term: u64, i: int, p: int)
    requires
        0 <= i <= p < log.len(),
        log[p].index == index,
        log[p].term == term,
        forall|k: int|
            i <= k < p ==> !((#[trigger] log[k]).index == index && log[k].term == term),
    ensures
        first_of_term(log, index, term, i) == Some(p),
    decreases p - i,
{
    if i < p {
        lemma_first_of_term(log, index, term, i + 1, p);
    }
}

proof fn lemma_none_of_term(log: Seq<EntryView>, index: u64, term: u64, i: int)
    requires
        0 <= i <= log.len(),
        forall|k: int|
            i <= k < log.len() ==> !((#[trigger] log[k]).index == index && log[k].term == term),
    ensures
        first_of_term(log, index, term, i) is None,
    decreases log.len() - i,
{
    if i < log.len() {
        lemma_none_of_term(log, index, term, i + 1);
    }
}

proof fn lemma_none_at(log: Seq<EntryView>, index: u64, i: int)
    requires
        0 <= i <= log.len(),
        forall|k: int| i <= k < log.len() ==> (#[trigger] log[k]).index != index,
    ensures
        first_at(log, index, i) is None,
    decreases log.len() - i,
{
    if i < log.len() {
        lemma_none_at(log, index, i + 1);
    }
}

proof fn lemma_lists_are_filters(log: Seq<EntryView>, since: u64, k: int)
    requires
        0 <= k <= log.len(),
    ensures
        committed_after(log, since, k) == log.take(k).filter(
            |e: EntryView| e.index > since && e.status == EntryStatus::Committed,
        ),
        prepared_entries(log, k) == log.take(k).filter(
            |e: EntryView| e.status == EntryStatus::Prepared,
        ),
        without_failed(log, k) == log.take(k).filter(
            |e: EntryView| e.status == EntryStatus::Prepared || e.status == EntryStatus::Committed,
        ),
    decreases k,
{
    reveal(Seq::filter);
    if k > 0 {
        lemma_lists_are_filters(log, since, k - 1);
        assert(log.take(k).drop_last() =~= log.take(k - 1));
        assert(log.take(k).last() == log[k - 1]);
    } else {
        assert(log.take(0) =~= Seq::<EntryView>::empty());
    }
}

/// The committed entries after an index are those entries of the log, in its order, that are
/// committed and come later; the uncommitted entries are those that are prepared.
pub proof fn law_lists_are_parts_of_the_log(log: Seq<EntryView>, since: u64)
    ensures
        committed_after(log, since, log.len() as int) == log.filter(
            |e: EntryView| e.index > since && e.status == EntryStatus::Committed,
        ),
        prepared_entries(log, log.len() as int) == log.filter(
            |e: EntryView| e.status == EntryStatus::Prepared,
        ),
        forall|e: EntryView|
            committed_after(log, since, log.len() as int).contains(e) <==> #[trigger] log.contains(e)
                && e.index > since && e.status == EntryStatus::Committed,
        forall|e: EntryView|
            prepared_entries(log, log.len() as int).contains(e) <==> #[trigger] log.contains(e)
                && e.status == EntryStatus::Prepared,
{
    lemma_lists_are_filters(log, since, log.len() as int);
    assert(log.take(log.len() as int) =~= log);
    let committed = |e: EntryView| e.index > since && e.status == EntryStatus::Committed;
    let waiting = |e: EntryView| e.status == EntryStatus::Prepared;
    assert forall|e: EntryView|
        log.filter(committed).contains(e) <==> #[trigger] log.contains(e) && committed(e) by {
        lemma_filter_holds(log, committed, e);
    }
    assert forall|e: EntryView|
        log.filter(waiting).contains(e) <==> #[trigger] log.contains(e) && waiting(e) by {
        lemma_filter_holds(log, waiting, e);
    }
}

proof fn lemma_filter_holds(log: Seq<EntryView>, pred: spec_fn(EntryView) -> bool, e: EntryView)
    ensures
        log.filter(pred).contains(e) <==> log.contains(e) && pred(e),
    decreases log.len(),
{
    reveal(Seq::filter);
    if log.len() > 0 {
        let rest = log.drop_last();
        lemma_filter_holds(rest, pred, e);
        let found = rest.filter(pred);
        assert(log =~= rest.push(log.last()));
        if log.contains(e) {
            let i = choose|i: int| 0 <= i < log.len() && log[i] == e;
            if i < rest.len() {
                assert(rest[i] == e);
                assert(rest.contains(e));
            }
            if pred(e) {
                if i < rest.len() {
                    let j = choose|j: int| 0 <= j < found.len() && found[j] == e;
                    assert(log.filter(pred)[j] == e);
                } else {
                    assert(log.filter(pred) == found.push(e));
                    assert(log.filter(pred)[found.len() as int] == e);
                }
            }
        }
        if log.filter(pred).contains(e) {
            let i = choose|i: int| 0 <= i < log.filter(pred).len() && log.filter(pred)[i] == e;
            if i < found.len() {
                assert(found[i] == e);
                assert(found.contains(e));
                let j = choose|j: int| 0 <= j < rest.len() && rest[j] == e;
                assert(log[j] == e);
            } else {
                assert(log[log.len() - 1] == e);
            }
        }
    }
}

/// After a notice that an entry is committed, the first entry of that index and term is committed
/// and listed among the committed ones after any lower index. It is not changed otherwise, nor is
/// any other entry, and the indexes of what is committed and applied reach the notified one.
pub proof fn law_notice_commits_the_entry(s: ChronicleView, index: u64, term: u64, p: int, since: u64)
    requires
        0 <= p < s.log.len(),
        s.log[p].index == index,
        s.log[p].term == term,
        forall|k: int|
            0 <= k < p ==> !((#[trigger] s.log[k]).index == index && s.log[k].term == term),
        since < index,
    ensures
        s.notified(index, term).log.len() == s.log.len(),
        s.notified(index, term).log[p] == (EntryView {
            status: EntryStatus::Committed,
            ..s.log[p]
        }),
        forall|i: int|
            0 <= i < s.log.len() && i != p ==> #[trigger] s.notified(index, term).log[i] == s.log[i],
        committed_after(
            s.notified(index, term).log,
            since,
            s.log.len() as int,
        ).contains(s.notified(index, term).log[p]),
        !prepared_entries(s.notified(index, term).log, s.log.len() as int).contains(
            s.notified(index, term).log[p],
        ),
        s.notified(index, term).commit_index >= index,
        s.notified(index, term).last_applied >= index,
{
    lemma_first_of_term(s.log, index, term, 0, p);
    let after = s.notified(index, term).log;
    law_lists_are_parts_of_the_log(after, since);
    assert(after.contains(after[p]));
}

/// A notice of an entry that the log does not have leaves the log alone.
pub proof fn law_notice_of_an_unknown_entry(s: ChronicleView, index: u64, term: u64)
    requires
        forall|k: int|
            0 <= k < s.log.len() ==> !((#[trigger] s.log[k]).index == index && s.log[k].term
                == term),
    ensures
        s.notified(index, term).log == s.log,
{
    lemma_none_of_term(s.log, index, term, 0);
}

/// A notice raises the indexes of what is committed and applied to the notified one where they are
/// lower, and changes nothing else but the log.
pub proof fn law_notice_raises_the_indexes(s: ChronicleView, index: u64, term: u64)
    ensures
        index <= s.commit_index ==> s.notified(index, term).commit_index == s.commit_index,
        index > s.commit_index ==> s.notified(index, term).commit_index == index,
        index <= s.last_applied ==> s.notified(index, term).last_applied == s.last_applied,
        index > s.last_applied ==> s.notified(index, term).last_applied == index,
        s.notified(index, term) == (ChronicleView {
            log: s.notified(index, term).log,
            commit_index: s.notified(index, term).commit_index,
            last_applied: s.notified(index, term).last_applied,
            ..s
        }),
{
}

/// A majority is more than half of the nodes, and one node fewer is not.
pub proof fn law_majority_is_the_smallest(size: nat)
    ensures
        2 * majority_of(size as int) > size,
        2 * (majority_of(size as int) - 1) <= size,
{
}

/// A proposal to the leader appends one entry, of the current term and the next index, with what was
/// proposed and the acknowledgement of the leader alone. It is committed, and counts as committed
/// and applied, exactly where the leader is the only node; else it waits for a majority.
pub proof fn law_proposals_are_appended(
    s: ChronicleView,
    change_type: ConfigChangeType,
    payload: Seq<char>,
    proposed_by: Seq<char>,
    now: i128,
)
    requires
        s.next_index < u64::MAX,
        s.cluster_size >= 1,
    ensures
        ({
            let e = s.new_entry(change_type, payload, proposed_by, now);
            let after = s.proposed(e);
            &&& after.log.len() == s.log.len() + 1
            &&& after.log.drop_last() == s.log
            &&& after.log.last() == e
            &&& e.term == s.term
            &&& e.index == s.next_index
            &&& after.next_index == e.index + 1
            &&& e.change_type == change_type
            &&& e.payload == payload
            &&& e.proposed_by == proposed_by
            &&& e.timestamp == now
            &&& e.acks.len() == 1
            &&& e.acks.contains(s.node_name)
            &&& e.status == EntryStatus::Committed <==> s.cluster_size == 1
            &&& e.status == EntryStatus::Prepared <==> s.cluster_size > 1
            &&& 2 * e.required_acks > s.cluster_size
            &&& 2 * (e.required_acks - 1) <= s.cluster_size
            &&& s.cluster_size == 1 ==> after.commit_index == e.index && after.last_applied
                == e.index
            &&& s.cluster_size > 1 ==> after.commit_index == s.commit_index && after.last_applied
                == s.last_applied
            &&& after.is_leader == s.is_leader
            &&& after.term == s.term
            &&& after.cluster_size == s.cluster_size
            &&& after.node_name == s.node_name
        }),
{
    let e = s.new_entry(change_type, payload, proposed_by, now);
    assert(s.proposed(e).log.drop_last() =~= s.log);
    assert(e.acks[0] == s.node_name);
}

/// A request to prepare appends the entry where the log has none of its term and index. Of the
/// entries up to what the leader has committed, the prepared ones become committed; nothing else
/// about the log changes. The term rises to that of the leader.
pub proof fn law_prepare_takes_over(
    s: ChronicleView,
    entry: EntryView,
    leader_term: u64,
    leader_commit: u64,
)
    ensures
        ({
            let after = s.prepared(entry, leader_term, leader_commit);
            let known = exists|i: int|
                0 <= i < s.log.len() && (#[trigger] s.log[i]).term == entry.term && s.log[i].index
                    == entry.index;
            let log = if known {
                s.log
            } else {
                s.log.push(entry)
            };
            &&& after.log.len() == log.len()
            &&& forall|i: int|
                0 <= i < log.len() && (log[i].index > leader_commit || log[i].status
                    != EntryStatus::Prepared) ==> #[trigger] after.log[i] == log[i]
            &&& forall|i: int|
                0 <= i < log.len() && log[i].index <= leader_commit && log[i].status
                    == EntryStatus::Prepared ==> #[trigger] after.log[i] == (EntryView {
                    status: EntryStatus::Committed,
                    ..log[i]
                })
            &&& after.term >= s.term
            &&& after.term >= leader_term
            &&& after.term == s.term || after.term == leader_term
            &&& after.commit_index >= s.commit_index
            &&& after.commit_index >= leader_commit
            &&& after.commit_index == s.commit_index || after.commit_index == leader_commit
            &&& after == (ChronicleView {
                log: after.log,
                term: after.term,
                commit_index: after.commit_index,
                ..s
            })
        }),
{
    let after = s.prepared(entry, leader_term, leader_commit);
    if s.has_entry(entry.term, entry.index) {
        let i = choose|i: int|
            0 <= i < s.log.len() && (#[trigger] s.log[i]).term == entry.term && s.log[i].index
                == entry.index;
        assert(s.log[i].term == entry.term);
    }
    assert(after =~= ChronicleView {
        log: after.log,
        term: after.term,
        commit_index: after.commit_index,
        ..s
    });
}

/// An acknowledgement adds the node to those of the first entry of that index, once. The entry
/// becomes committed exactly where it was prepared and now has as many acknowledgements as it
/// needs, and the indexes of what is committed and applied then reach it. No other entry changes.
pub proof fn law_acknowledgements_are_counted(s: ChronicleView, index: u64, node: Seq<char>, p: int)
    requires
        0 <= p < s.log.len(),
        s.log[p].index == index,
        forall|k: int| 0 <= k < p ==> (#[trigger] s.log[k]).index != index,
    ensures
        ({
            let e = s.log[p];
            let after = s.acked(index, node);
            let f = after.log[p];
            let commits = e.status == EntryStatus::Prepared && f.acks.len() >= e.required_acks;
            &&& after.log.len() == s.log.len()
            &&& forall|i: int|
                0 <= i < s.log.len() && i != p ==> #[trigger] after.log[i] == s.log[i]
            &&& f.acks.contains(node)
            &&& e.acks.contains(node) ==> f.acks == e.acks
            &&& !e.acks.contains(node) ==> f.acks.len() == e.acks.len() + 1 && f.acks.drop_last()
                == e.acks
            &&& f == (EntryView { acks: f.acks, status: f.status, ..e })
            &&& commits ==> f.status == EntryStatus::Committed
            &&& !commits ==> f.status == e.status
            &&& s.ack_commits(index, node) <==> commits
            &&& commits ==> after.commit_index >= index && after.last_applied >= index
            &&& !commits ==> after.commit_index == s.commit_index && after.last_applied
                == s.last_applied
            &&& after.commit_index == s.commit_index || after.commit_index == index
            &&& after.last_applied == s.last_applied || after.last_applied == index
            &&& after.commit_index >= s.commit_index
            &&& after.last_applied >= s.last_applied
            &&& after.term == s.term
            &&& after.next_index == s.next_index
            &&& after.is_leader == s.is_leader
            &&& after.cluster_size == s.cluster_size
        }),
{
    lemma_first_at(s.log, index, 0, p);
    let e = s.log[p];
    let f = s.acked(index, node).log[p];
    if !e.acks.contains(node) {
        assert(f.acks == e.acks.push(node));
        assert(f.acks[e.acks.len() as int] == node);
        assert(f.acks.drop_last() =~= e.acks);
    }
}

/// An acknowledgement of an index that the log does not have changes nothing.
pub proof fn law_acknowledgement_of_an_unknown_entry(s: ChronicleView, index: u64, node: Seq<char>)
    requires
        forall|k: int| 0 <= k < s.log.len() ==> (#[trigger] s.log[k]).index != index,
    ensures
        s.acked(index, node) == s,
        !s.ack_commits(index, node),
{
    lemma_none_at(s.log, index, 0);
}

/// Entries fail exactly where they are still prepared when more whole seconds have passed since they
/// were proposed than the timeout allows; nothing else changes.
pub proof fn law_only_waiting_entries_time_out(s: ChronicleView, now: i128, timeout_secs: i64, i: int)
    requires
        0 <= i < s.log.len(),
        timeout_secs >= 0,
    ensures
        ({
            let after = s.expired(now, timeout_secs);
            let late = now - s.log[i].timestamp >= (timeout_secs + 1) * 1_000_000_000;
            &&& after.log.len() == s.log.len()
            &&& s.log[i].status == EntryStatus::Prepared && late ==> after.log[i] == (EntryView {
                status: EntryStatus::Failed,
                ..s.log[i]
            })
            &&& s.log[i].status != EntryStatus::Prepared || !late ==> after.log[i] == s.log[i]
            &&& after == (ChronicleView { log: after.log, ..s })
        }),
{
}

proof fn lemma_filters_of_kept(log: Seq<EntryView>, drop: int, k: int)
    requires
        0 <= k <= log.len(),
        0 <= drop,
    ensures
        ({
            let waiting = |e: EntryView| e.status == EntryStatus::Prepared;
            let committed = |e: EntryView| e.status == EntryStatus::Committed;
            let out = without_committed(log, drop, k);
            let all = log.take(k).filter(committed);
            &&& out.filter(waiting) == log.take(k).filter(waiting)
            &&& all.len() == committed_count(log, k)
            &&& out.filter(committed) == if all.len() > drop {
                all.skip(drop)
            } else {
                Seq::empty()
            }
        }),
    decreases k,
{
    reveal(Seq::filter);
    let committed = |e: EntryView| e.status == EntryStatus::Committed;
    if k > 0 {
        lemma_filters_of_kept(log, drop, k - 1);
        assert(log.take(k).drop_last() =~= log.take(k - 1));
        let rest = without_committed(log, drop, k - 1);
        let out = without_committed(log, drop, k);
        let all = log.take(k - 1).filter(committed);
        let more = log.take(k).filter(committed);
        if out != rest {
            assert(out.drop_last() =~= rest);
        }
        if log[k - 1].is_committed() {
            assert(more == all.push(log[k - 1]));
            if all.len() >= drop {
                assert(more.skip(drop) =~= all.skip(drop).push(log[k - 1]));
            }
            if all.len() == drop {
                assert(all.skip(drop) =~= Seq::<EntryView>::empty());
            }
        }
    } else {
        assert(log.take(0) =~= Seq::<EntryView>::empty());
    }
}

proof fn lemma_filter_of_filter(
    log: Seq<EntryView>,
    live: spec_fn(EntryView) -> bool,
    pred: spec_fn(EntryView) -> bool,
)
    requires
        forall|e: EntryView| #[trigger] pred(e) ==> live(e),
    ensures
        log.filter(live).filter(pred) == log.filter(pred),
    decreases log.len(),
{
    reveal(Seq::filter);
    if log.len() > 0 {
        let rest = log.drop_last();
        lemma_filter_of_filter(rest, live, pred);
        let last = log.last();
        if live(last) {
            assert(rest.filter(live).push(last).drop_last() =~= rest.filter(live));
        } else {
            assert(!pred(last));
        }
    }
}

/// Collecting old entries drops the failed ones, keeps the prepared ones in their order, and keeps
/// of the committed ones the last `keep`.
pub proof fn law_collection_drops_the_oldest(s: ChronicleView, keep: nat)
    ensures
        ({
            let waiting = |e: EntryView| e.status == EntryStatus::Prepared;
            let committed = |e: EntryView| e.status == EntryStatus::Committed;
            let out = s.collected(keep as int).log;
            let all = s.log.filter(committed);
            &&& out.filter(waiting) == s.log.filter(waiting)
            &&& out.filter(committed) == if all.len() > keep {
                all.skip(all.len() - keep)
            } else {
                all
            }
            &&& forall|i: int| 0 <= i < out.len() ==> (#[trigger] out[i]).status
                != EntryStatus::Failed
            &&& s.collected(keep as int) == (ChronicleView { log: out, ..s })
        }),
{
    let waiting = |e: EntryView| e.status == EntryStatus::Prepared;
    let committed = |e: EntryView| e.status == EntryStatus::Committed;
    let live_test = |e: EntryView|
        e.status == EntryStatus::Prepared || e.status == EntryStatus::Committed;
    let n = s.log.len() as int;
    lemma_lists_are_filters(s.log, 0, n);
    assert(s.log.take(n) =~= s.log);
    let live = without_failed(s.log, n);
    lemma_filter_of_filter(s.log, live_test, waiting);
    lemma_filter_of_filter(s.log, live_test, committed);
    let m = live.len() as int;
    assert(live.take(m) =~= live);
    let drop = committed_count(live, m) - keep;
    lemma_filters_of_kept(live, 0, m);
    let all = s.log.filter(committed);
    assert(all.skip(0) =~= all);
    if drop > 0 {
        lemma_filters_of_kept(live, drop, m);
        if keep == 0 {
            assert(all.skip(all.len() as int) =~= Seq::<EntryView>::empty());
        }
    } else {
        lemma_nothing_dropped(live, drop, m);
    }
    lemma_kept_from(live, drop, m);
    let out = s.collected(keep as int).log;
    assert forall|i: int| 0 <= i < out.len() implies (#[trigger] out[i]).status
        != EntryStatus::Failed by {
        assert(live.contains(out[i]));
        lemma_filter_holds(s.log, live_test, out[i]);
    }
}

proof fn lemma_kept_from(log: Seq<EntryView>, drop: int, k: int)
    requires
        0 <= k <= log.len(),
    ensures
        forall|i: int|
            0 <= i < without_committed(log, drop, k).len() ==> log.contains(
                #[trigger] without_committed(log, drop, k)[i],
            ),
    decreases k,
{
    if k > 0 {
        lemma_kept_from(log, drop, k - 1);
        assert(log.contains(log[k - 1]));
        let rest = without_committed(log, drop, k - 1);
        let out = without_committed(log, drop, k);
        assert forall|i: int| 0 <= i < out.len() implies log.contains(#[trigger] out[i]) by {
            if i < rest.len() {
                assert(out[i] == rest[i]);
            }
        }
    }
}

/// A leader of an older term is told both terms, its own first.
pub proof fn law_stale_leaders_are_told(theirs: u64, mine: u64)
    ensures
        stale_reason(theirs, mine) == "Stale leader term "@ + (dec(theirs as nat) + (" < my term "@
            + dec(mine as nat))),
{
    assert(stale_reason(theirs, mine) =~= "Stale leader term "@ + (dec(theirs as nat) + (
    " < my term "@ + dec(mine as nat))));
}

} // verus!
