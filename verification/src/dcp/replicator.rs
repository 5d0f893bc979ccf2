//! Replication inside the cluster: the node that owns a vBucket sends every change to the nodes that
//! hold its replicas.

use crate::cluster::manager::{ClusterManager, ClusterView};
use crate::dcp::stream::{mutation_event, removal_event, DcpEvent, DcpEventType, DcpEventView};
use crate::idmap::IdMap;
use crate::strmap::StrMap;
use crate::text::{copy_opt, opt_text, texts};
use vstd::prelude::*;
use vstd::string::*;

verus! {

/// A change on its way from the owner of a vBucket to a replica. The value is a JSON text.
#[derive(Debug)]
pub struct ReplicationMutation {
    pub bucket: String,
    pub vbucket_id: u16,
    pub key: String,
    /// None for deletions.
    pub value: Option<String>,
    pub cas: u64,
    pub seq_no: u64,
    pub rev_id: u64,
    /// Seconds until the document expires; zero for never.
    pub expiry: u64,
    pub flags: u32,
    pub deleted: bool,
    pub source_node: String,
}

/// What a [`ReplicationMutation`] stands for.
#[verifier::ext_equal]
pub struct ReplicationView {
    pub bucket: Seq<char>,
    pub vbucket_id: u16,
    pub key: Seq<char>,
    pub value: Option<Seq<char>>,
    pub cas: u64,
    pub seq_no: u64,
    pub rev_id: u64,
    pub expiry: u64,
    pub flags: u32,
    pub deleted: bool,
    pub source_node: Seq<char>,
}

impl View for ReplicationMutation {
    type V = ReplicationView;

    open spec fn view(&self) -> ReplicationView {
        ReplicationView {
            bucket: self.bucket@,
            vbucket_id: self.vbucket_id,
            key: self.key@,
            value: opt_text(self.value),
            cas: self.cas,
            seq_no: self.seq_no,
            rev_id: self.rev_id,
            expiry: self.expiry,
            flags: self.flags,
            deleted: self.deleted,
            source_node: self.source_node@,
        }
    }
}

impl ReplicationMutation {
    /// A copy.
    pub fn copy(&self) -> (r: ReplicationMutation)
        ensures
            r == *self,
    {
        ReplicationMutation {
            bucket: self.bucket.clone(),
            vbucket_id: self.vbucket_id,
            key: self.key.clone(),
            value: copy_opt(&self.value),
            cas: self.cas,
            seq_no: self.seq_no,
            rev_id: self.rev_id,
            expiry: self.expiry,
            flags: self.flags,
            deleted: self.deleted,
            source_node: self.source_node.clone(),
        }
    }
}

/// Changes that are sent together.
#[derive(Debug)]
pub struct ReplicationBatch {
    pub source_node: String,
    pub mutations: Vec<ReplicationMutation>,
}

/// What a replica answers.
pub struct ReplicationAck {
    pub node: String,
    /// The highest sequence number taken in, for each vBucket.
    pub vbucket_acks: IdMap<u64>,
    pub applied: usize,
    pub rejected: usize,
}

/// How far the replication of a vBucket has come.
pub struct VBucketReplicationProgress {
    /// The last sequence number sent to each replica.
    pub sent_seq: StrMap<u64>,
    /// The last sequence number that each replica has acknowledged.
    pub acked_seq: StrMap<u64>,
    pub pending_count: u64,
    pub total_replicated: u64,
    pub total_errors: u64,
}

/// What a [`VBucketReplicationProgress`] stands for.
#[verifier::ext_equal]
pub struct ProgressView {
    pub sent_seq: Map<Seq<char>, u64>,
    pub acked_seq: Map<Seq<char>, u64>,
    pub pending_count: u64,
    pub total_replicated: u64,
    pub total_errors: u64,
}

impl ProgressView {
    pub open spec fn fresh() -> Self {
        ProgressView {
            sent_seq: Map::empty(),
            acked_seq: Map::empty(),
            pending_count: 0,
            total_replicated: 0,
            total_errors: 0,
        }
    }

    /// After a change was sent to a replica.
    pub open spec fn sent(self, replica: Seq<char>, seq: u64) -> Self {
        ProgressView {
            sent_seq: self.sent_seq.insert(replica, seq),
            total_replicated: (self.total_replicated + 1) as u64,
            ..self
        }
    }

    /// After a change could not be sent.
    pub open spec fn failed(self) -> Self {
        ProgressView { total_errors: (self.total_errors + 1) as u64, ..self }
    }
}

impl View for VBucketReplicationProgress {
    type V = ProgressView;

    open spec fn view(&self) -> ProgressView {
        ProgressView {
            sent_seq: self.sent_seq@,
            acked_seq: self.acked_seq@,
            pending_count: self.pending_count,
            total_replicated: self.total_replicated,
            total_errors: self.total_errors,
        }
    }
}

impl VBucketReplicationProgress {
    pub open spec fn wf(self) -> bool {
        self.sent_seq.wf() && self.acked_seq.wf()
    }

    fn new() -> (r: Self)
        ensures
            r.wf(),
            r@ == ProgressView::fresh(),
            r.sent_seq.keys@.len() == 0,
    {
        let r = VBucketReplicationProgress {
            sent_seq: StrMap::new(),
            acked_seq: StrMap::new(),
            pending_count: 0,
            total_replicated: 0,
            total_errors: 0,
        };
        assert(r@ =~= ProgressView::fresh());
        r
    }

    /// By how much the replica at place `i` of the list lags behind.
    pub open spec fn lag_at(self, i: int) -> int {
        let name = self.sent_seq.keys@[i]@;
        let acked = if self.acked_seq@.contains_key(name) {
            self.acked_seq@[name]
        } else {
            0
        };
        if self.sent_seq.vals@[i] > acked {
            self.sent_seq.vals@[i] - acked
        } else {
            0
        }
    }

    /// By how much the first `k` replicas lag behind together.
    pub open spec fn lag(self, k: int) -> int
        decreases k,
    {
        if k <= 0 {
            0
        } else {
            self.lag(k - 1) + self.lag_at(k - 1)
        }
    }

    /// By how much the replicas lag behind together.
    pub open spec fn total_lag(self) -> int {
        self.lag(self.sent_seq.keys@.len() as int)
    }

    fn measure_lag(&self) -> (r: u64)
        requires
            self.wf(),
            self.total_lag() <= u64::MAX,
        ensures
            r == self.total_lag(),
    {
        let mut total: u64 = 0;
        let mut k: usize = 0;
        while k < self.sent_seq.keys.len()
            invariant
                k <= self.sent_seq.keys@.len(),
                self.wf(),
                self.total_lag() <= u64::MAX,
                total == self.lag(k as int),
            decreases self.sent_seq.keys@.len() - k,
        {
            proof {
                lemma_lag_grows(*self, k + 1, self.sent_seq.keys@.len() as int);
            }
            let sent: u64 = self.sent_seq.vals[k];
            let acked: u64 = match self.acked_seq.get(self.sent_seq.keys[k].as_str()) {
                Some(a) => *a,
                None => 0,
            };
            if sent > acked {
                total = total + (sent - acked);
            }
            k = k + 1;
        }
        total
    }
}

proof fn lemma_lag_grows(p: VBucketReplicationProgress, a: int, b: int)
    requires
        0 <= a <= b,
    ensures
        0 <= p.lag(a) <= p.lag(b),
    decreases b,
{
    if b > 0 {
        lemma_lag_grows(p, 0, b - 1);
        if a < b {
            lemma_lag_grows(p, a, b - 1);
        } else {
        }
    }
}

/// The state of replication, for monitoring.
pub struct ReplicationStatus<'a> {
    pub active: bool,
    pub node_name: String,
    /// For each vBucket how far its replicas have come.
    pub vbucket_progress: &'a IdMap<VBucketReplicationProgress>,
    pub total_replicated: u64,
    pub total_errors: u64,
    /// In sequence numbers.
    pub estimated_lag: u64,
}

/// Sends the changes of a node to the replicas.
pub struct IntraClusterReplicator {
    pub node_name: String,
    pub active: bool,
    pub total_replicated: u64,
    pub total_errors: u64,
    pub progress: IdMap<VBucketReplicationProgress>,
}

/// What an [`IntraClusterReplicator`] stands for.
#[verifier::ext_equal]
pub struct ReplicatorView {
    pub node_name: Seq<char>,
    pub active: bool,
    pub total_replicated: u64,
    pub total_errors: u64,
    pub progress: Map<u16, ProgressView>,
}

/// A change and the replicas to which it goes: names and addresses.
pub struct ReplicationPlan {
    pub mutation: ReplicationMutation,
    pub targets: Vec<(String, String)>,
}

/// What an event becomes on its way to the replicas.
pub open spec fn replicated(event: DcpEventView, node: Seq<char>) -> ReplicationView {
    ReplicationView {
        bucket: event.bucket,
        vbucket_id: event.vbucket_id,
        key: event.key,
        value: event.value,
        cas: event.cas,
        seq_no: event.seq_no,
        rev_id: 0,
        expiry: event.expiry as u64,
        flags: event.flags,
        deleted: event.event_type == DcpEventType::Deletion,
        source_node: node,
    }
}

/// Whether a node owns a vBucket, and there are replicas to send to.
pub open spec fn is_replicated(cluster: ClusterView, vbucket_id: u16) -> bool {
    &&& vbucket_id < cluster.partition_map.map.len()
    &&& cluster.partition_map.map[vbucket_id as int].active == cluster.self_node.name
    &&& cluster.partition_map.map[vbucket_id as int].replicas.len() > 0
}

/// Those of the first `k` replicas that are nodes of the cluster, with their addresses.
pub open spec fn reachable(cluster: ClusterView, replicas: Seq<Seq<char>>, k: int) -> Seq<
    (Seq<char>, Seq<char>),
>
    decreases k,
{
    if k <= 0 {
        Seq::empty()
    } else if cluster.has_node(replicas[k - 1]) {
        reachable(cluster, replicas, k - 1).push(
            (replicas[k - 1], cluster.address(replicas[k - 1])),
        )
    } else {
        reachable(cluster, replicas, k - 1)
    }
}

/// What a list of pairs of strings stands for.
pub open spec fn pairs(v: Seq<(String, String)>) -> Seq<(Seq<char>, Seq<char>)> {
    Seq::new(v.len(), |i: int| (v[i].0@, v[i].1@))
}

/// The number after another, coming round at the end.
pub open spec fn next_round(n: u64) -> u64 {
    if n == u64::MAX {
        0
    } else {
        (n + 1) as u64
    }
}

impl ReplicatorView {
    /// The progress of a vBucket.
    pub open spec fn progress_of(self, vb: u16) -> ProgressView {
        if self.progress.contains_key(vb) {
            self.progress[vb]
        } else {
            ProgressView::fresh()
        }
    }

    /// After a change was sent to a replica.
    pub open spec fn sent(self, vb: u16, replica: Seq<char>, seq: u64) -> Self {
        ReplicatorView {
            total_replicated: next_round(self.total_replicated),
            progress: self.progress.insert(vb, self.progress_of(vb).sent(replica, seq)),
            ..self
        }
    }

    /// After a change could not be sent.
    pub open spec fn failed(self, vb: u16) -> Self {
        ReplicatorView {
            total_errors: next_round(self.total_errors),
            progress: self.progress.insert(vb, self.progress_of(vb).failed()),
            ..self
        }
    }
}

/// What progress stands for.
pub open spec fn progress_views(m: Map<u16, VBucketReplicationProgress>) -> Map<u16, ProgressView> {
    Map::new(|k: u16| m.contains_key(k), |k: u16| m[k]@)
}

/// The acknowledgements of the first `k` changes of a batch: for each vBucket the highest sequence
/// number that was taken in.
pub open spec fn acks_of(mutations: Seq<ReplicationMutation>, taken: Seq<bool>, k: int) -> Map<u16, u64>
    decreases k,
{
    if k <= 0 {
        Map::empty()
    } else {
        let rest = acks_of(mutations, taken, k - 1);
        let m = mutations[k - 1];
        let known = if rest.contains_key(m.vbucket_id) {
            rest[m.vbucket_id]
        } else {
            0
        };
        if taken[k - 1] {
            rest.insert(
                m.vbucket_id,
                if m.seq_no > known {
                    m.seq_no
                } else {
                    known
                },
            )
        } else {
            rest
        }
    }
}

/// How many of the first `k` are true.
pub open spec fn count_true(v: Seq<bool>, k: int) -> nat
    decreases k,
{
    if k <= 0 {
        0
    } else {
        count_true(v, k - 1) + if v[k - 1] {
            1nat
        } else {
            0nat
        }
    }
}

/// A change as the storage layer takes it in. The value is a JSON text; times are nanoseconds since
/// the Unix epoch.
pub struct StorageMutation {
    pub key: String,
    pub value: String,
    pub cas: u64,
    pub seq_no: u64,
    pub rev_id: u64,
    pub expiry: Option<i128>,
    pub flags: u32,
    pub updated_at: i128,
    pub deleted: bool,
    pub source_cluster: Option<String>,
    pub vbucket_id: u16,
    /// The extended attributes, each a JSON text.
    pub xattrs: StrMap<String>,
}

/// The first time that can be written as a calendar date.
pub const MIN_TIME: i128 = -8_334_601_315_200_000_000_000;

/// The last time that can be written as a calendar date.
pub const MAX_TIME: i128 = 8_210_266_876_799_999_999_999;

/// The bits of a number, read as a signed one.
pub open spec fn as_signed(n: u64) -> int {
    if n > i64::MAX {
        n - 0x1_0000_0000_0000_0000
    } else {
        n as int
    }
}

/// When a change expires that is applied at a given time.
pub open spec fn expires_at(expiry: u64, now: i128) -> int {
    now + as_signed(expiry) * 1_000_000_000
}

/// Whether the expiry of a change is a time that can be written as a calendar date.
pub fn can_expire(expiry: u64, now: i128) -> (r: bool)
    requires
        MIN_TIME <= now <= MAX_TIME,
    ensures
        r == (expiry == 0 || MIN_TIME <= expires_at(expiry, now) <= MAX_TIME),
{
    let at: i128 = now + signed(expiry) * 1_000_000_000;
    expiry == 0 || (MIN_TIME <= at && at <= MAX_TIME)
}

/// The bits of a number, read as a signed one.
fn signed(n: u64) -> (r: i128)
    ensures
        r == as_signed(n),
{
    if n > 0x7fff_ffff_ffff_ffff {
        n as i128 - 0x1_0000_0000_0000_0000
    } else {
        n as i128
    }
}

/// The change that a replica makes to its copy, at a given time. The expiry must be a time that can
/// be written as a calendar date.
pub fn storage_mutation(m: &ReplicationMutation, now: i128) -> (r: StorageMutation)
    requires
        m.expiry > 0 ==> MIN_TIME <= expires_at(m.expiry, now) <= MAX_TIME,
    ensures
        r.key@ == m.key@,
        r.value@ == match m.value {
            Some(v) => v@,
            None => "null"@,
        },
        r.cas == m.cas,
        r.seq_no == m.seq_no,
        r.rev_id == m.rev_id,
        r.expiry == if m.expiry > 0 {
            Some(expires_at(m.expiry, now) as i128)
        } else {
            None
        },
        r.flags == m.flags,
        r.updated_at == now,
        r.deleted == m.deleted,
        r.source_cluster is Some,
        r.source_cluster->0@ == m.source_node@,
        r.vbucket_id == m.vbucket_id,
        r.xattrs.wf(),
        r.xattrs@ == Map::<Seq<char>, String>::empty(),
{
    StorageMutation {
        key: m.key.clone(),
        value: match &m.value {
            Some(v) => v.clone(),
            None => "null".to_owned(),
        },
        cas: m.cas,
        seq_no: m.seq_no,
        rev_id: m.rev_id,
        expiry: if m.expiry > 0 {
            Some(now + signed(m.expiry) * 1_000_000_000)
        } else {
            None
        },
        flags: m.flags,
        updated_at: now,
        deleted: m.deleted,
        source_cluster: Some(m.source_node.clone()),
        vbucket_id: m.vbucket_id,
        xattrs: StrMap::new(),
    }
}

/// The address to which changes are sent.
pub fn replicate_url(base_url: &str) -> (r: String)
    ensures
        r@ == base_url@ + "/api/v1/internal/replicate"@,
{
    let mut url = base_url.to_owned();
    url.append("/api/v1/internal/replicate");
    url
}

impl View for IntraClusterReplicator {
    type V = ReplicatorView;

    open spec fn view(&self) -> ReplicatorView {
        ReplicatorView {
            node_name: self.node_name@,
            active: self.active,
            total_replicated: self.total_replicated,
            total_errors: self.total_errors,
            progress: progress_views(self.progress@),
        }
    }
}

impl IntraClusterReplicator {
    pub open spec fn wf(self) -> bool {
        &&& self.progress.wf()
        &&& forall|k: u16| #[trigger]
            self.progress@.contains_key(k) ==> self.progress@[k].wf()
    }

    pub fn new(node_name: String) -> (r: Self)
        ensures
            r.wf(),
            r@ == (ReplicatorView {
                node_name: node_name@,
                active: true,
                total_replicated: 0,
                total_errors: 0,
                progress: Map::empty(),
            }),
    {
        let r = IntraClusterReplicator {
            node_name,
            active: true,
            total_replicated: 0,
            total_errors: 0,
            progress: IdMap::new(),
        };
        assert(r@.progress =~= Map::empty());
        r
    }

    /// Where a change goes: nowhere unless this node owns the vBucket and it has replicas.
    pub fn plan_replication(&self, cluster: &ClusterManager, event: &DcpEvent) -> (r: Option<
        ReplicationPlan,
    >)
        ensures
            match r {
                Some(plan) => {
                    let replicas = cluster@.partition_map.map[event@.vbucket_id as int].replicas;
                    &&& is_replicated(cluster@, event@.vbucket_id)
                    &&& plan.mutation@ == replicated(event@, self@.node_name)
                    &&& pairs(plan.targets@) == reachable(
                        cluster@,
                        replicas,
                        replicas.len() as int,
                    )
                },
                None => !is_replicated(cluster@, event@.vbucket_id),
            },
    {
        if !cluster.is_vbucket_local(event.vbucket_id) {
            return None;
        }
        let replicas = cluster.partition_map.get_replica_nodes(event.vbucket_id);
        assert(texts(replicas@).len() == replicas@.len());
        if replicas.len() == 0 {
            return None;
        }
        let mutation = ReplicationMutation {
            bucket: event.bucket.clone(),
            vbucket_id: event.vbucket_id,
            key: event.key.clone(),
            value: copy_opt(&event.value),
            cas: event.cas,
            seq_no: event.seq_no,
            rev_id: 0,
            expiry: event.expiry as u64,
            flags: event.flags,
            deleted: event.event_type == DcpEventType::Deletion,
            source_node: self.node_name.clone(),
        };
        let ghost names = texts(replicas@);
        let mut targets: Vec<(String, String)> = Vec::new();
        let mut k: usize = 0;
        assert(pairs(targets@) =~= reachable(cluster@, names, 0));
        while k < replicas.len()
            invariant
                k <= replicas@.len(),
                names == texts(replicas@),
                pairs(targets@) == reachable(cluster@, names, k as int),
            decreases replicas@.len() - k,
        {
            let ghost prior = targets@;
            assert(names[k as int] == replicas@[k as int]@);
            match cluster.get_node_url(replicas[k].as_str()) {
                Some(url) => {
                    targets.push((replicas[k].clone(), url));
                    assert(pairs(targets@) =~= pairs(prior).push(
                        (names[k as int], cluster@.address(names[k as int])),
                    ));
                },
                None => {},
            }
            k = k + 1;
        }
        Some(ReplicationPlan { mutation, targets })
    }

    /// The batch that bears one change.
    pub fn single_batch(&self, mutation: &ReplicationMutation) -> (r: ReplicationBatch)
        ensures
            r.source_node@ == self@.node_name,
            r.mutations@ == seq![*mutation],
    {
        let mut mutations: Vec<ReplicationMutation> = Vec::new();
        mutations.push(mutation.copy());
        assert(mutations@ =~= seq![*mutation]);
        ReplicationBatch { source_node: self.node_name.clone(), mutations }
    }

    /// Takes the progress of a vBucket out, or starts one.
    fn take_progress(&mut self, vb: u16) -> (r: VBucketReplicationProgress)
        requires
            old(self).wf(),
        ensures
            final(self).wf(),
            r.wf(),
            r@ == old(self)@.progress_of(vb),
            final(self)@ == (ReplicatorView {
                progress: old(self)@.progress.remove(vb),
                ..old(self)@
            }),
    {
        let ghost before = *self;
        let taken = self.progress.remove(vb);
        proof {
            assert(self@.progress =~= before@.progress.remove(vb));
            assert forall|k: u16| #[trigger] self.progress@.contains_key(k) implies self.progress@[k]
                .wf() by {
                assert(before.progress@.contains_key(k));
            }
        }
        match taken {
            Some(p) => {
                assert(before.progress@.contains_key(vb));
                p
            },
            None => VBucketReplicationProgress::new(),
        }
    }

    /// Puts the progress of a vBucket back.
    fn put_progress(&mut self, vb: u16, p: VBucketReplicationProgress)
        requires
            old(self).wf(),
            p.wf(),
        ensures
            final(self).wf(),
            final(self)@ == (ReplicatorView {
                progress: old(self)@.progress.insert(vb, p@),
                ..old(self)@
            }),
    {
        let ghost before = *self;
        let ghost view = p@;
        self.progress.insert(vb, p);
        proof {
            assert(self@.progress =~= before@.progress.insert(vb, view));
            assert forall|k: u16| #[trigger] self.progress@.contains_key(k) implies self.progress@[k]
                .wf() by {
                if k != vb {
                    assert(before.progress@.contains_key(k));
                }
            }
        }
    }

    /// Records that a change was sent to a replica.
    pub fn record_sent(&mut self, vb: u16, replica: &str, seq: u64)
        requires
            old(self).wf(),
            old(self)@.progress_of(vb).total_replicated < u64::MAX,
        ensures
            final(self).wf(),
            final(self)@ == old(self)@.sent(vb, replica@, seq),
    {
        let ghost before = self@;
        let mut p = self.take_progress(vb);
        let ghost p0 = p@;
        p.sent_seq.insert(replica.to_owned(), seq);
        p.total_replicated = p.total_replicated + 1;
        assert(p@ =~= p0.sent(replica@, seq));
        self.put_progress(vb, p);
        self.total_replicated = if self.total_replicated == u64::MAX {
            0
        } else {
            self.total_replicated + 1
        };
        assert(self@.progress =~= before.sent(vb, replica@, seq).progress);
    }

    /// Records that a change could not be sent to a replica.
    pub fn record_failure(&mut self, vb: u16)
        requires
            old(self).wf(),
            old(self)@.progress_of(vb).total_errors < u64::MAX,
        ensures
            final(self).wf(),
            final(self)@ == old(self)@.failed(vb),
    {
        let ghost before = self@;
        let mut p = self.take_progress(vb);
        let ghost p0 = p@;
        p.total_errors = p.total_errors + 1;
        assert(p@ =~= p0.failed());
        self.put_progress(vb, p);
        self.total_errors = if self.total_errors == u64::MAX {
            0
        } else {
            self.total_errors + 1
        };
        assert(self@.progress =~= before.failed(vb).progress);
    }

    /// The answer to a batch, given which changes were taken in.
    pub fn receive_batch(&self, batch: &ReplicationBatch, taken: &Vec<bool>) -> (r: ReplicationAck)
        requires
            taken@.len() == batch.mutations@.len(),
        ensures
            r.node@ == self@.node_name,
            r.vbucket_acks.wf(),
            r.vbucket_acks@ == acks_of(batch.mutations@, taken@, taken@.len() as int),
            r.applied == count_true(taken@, taken@.len() as int),
            r.rejected == taken@.len() - r.applied,
    {
        let mut acks: IdMap<u64> = IdMap::new();
        let mut applied: usize = 0;
        let mut rejected: usize = 0;
        let mut k: usize = 0;
        assert(acks@ =~= acks_of(batch.mutations@, taken@, 0));
        while k < taken.len()
            invariant
                k <= taken@.len(),
                taken@.len() == batch.mutations@.len(),
                acks.wf(),
                acks@ == acks_of(batch.mutations@, taken@, k as int),
                applied + rejected == k,
                applied == count_true(taken@, k as int),
            decreases taken@.len() - k,
        {
            if taken[k] {
                let vb: u16 = batch.mutations[k].vbucket_id;
                let seq: u64 = batch.mutations[k].seq_no;
                let known: u64 = match acks.get(vb) {
                    Some(n) => *n,
                    None => 0,
                };
                acks.insert(
                    vb,
                    if seq > known {
                        seq
                    } else {
                        known
                    },
                );
                applied = applied + 1;
            } else {
                rejected = rejected + 1;
            }
            k = k + 1;
        }
        ReplicationAck { node: self.node_name.clone(), vbucket_acks: acks, applied, rejected }
    }

    /// By how much the first `k` vBuckets lag behind together.
    pub open spec fn lag(self, k: int) -> int
        decreases k,
    {
        if k <= 0 {
            0
        } else {
            self.lag(k - 1) + self.progress.vals@[k - 1].total_lag()
        }
    }

    /// By how much all vBuckets lag behind together.
    pub open spec fn total_lag(self) -> int {
        self.lag(self.progress.vals@.len() as int)
    }

    /// The state for monitoring.
    pub fn get_status(&self) -> (r: ReplicationStatus<'_>)
        requires
            self.wf(),
            self.total_lag() <= u64::MAX,
        ensures
            r.active == self@.active,
            r.node_name@ == self@.node_name,
            progress_views(r.vbucket_progress@) == self@.progress,
            r.total_replicated == self@.total_replicated,
            r.total_errors == self@.total_errors,
            r.estimated_lag == self.total_lag(),
    {
        let mut total: u64 = 0;
        let mut k: usize = 0;
        while k < self.progress.vals.len()
            invariant
                k <= self.progress.vals@.len(),
                self.wf(),
                self.total_lag() <= u64::MAX,
                total == self.lag(k as int),
            decreases self.progress.vals@.len() - k,
        {
            proof {
                self.progress.lemma_place(k as int);
                lemma_replicator_lag_grows(*self, k + 1, self.progress.vals@.len() as int);
                lemma_replicator_lag_grows(*self, 0, k as int);
                lemma_lag_grows(
                    self.progress.vals@[k as int],
                    0,
                    self.progress.vals@[k as int].sent_seq.keys@.len() as int,
                );
            }
            total = total + self.progress.vals[k].measure_lag();
            k = k + 1;
        }
        ReplicationStatus {
            active: self.active,
            node_name: self.node_name.clone(),
            vbucket_progress: &self.progress,
            total_replicated: self.total_replicated,
            total_errors: self.total_errors,
            estimated_lag: total,
        }
    }

    /// Stops sending changes.
    pub fn pause(&mut self)
        requires
            old(self).wf(),
        ensures
            final(self).wf(),
            final(self)@ == (ReplicatorView { active: false, ..old(self)@ }),
    {
        self.active = false;
    }

    /// Goes on sending changes.
    pub fn resume(&mut self)
        requires
            old(self).wf(),
        ensures
            final(self).wf(),
            final(self)@ == (ReplicatorView { active: true, ..old(self)@ }),
    {
        self.active = true;
    }
}

proof fn lemma_replicator_lag_grows(r: IntraClusterReplicator, a: int, b: int)
    requires
        0 <= a <= b,
    ensures
        0 <= r.lag(a) <= r.lag(b),
    decreases b,
{
    if b > 0 {
        let p = r.progress.vals@[b - 1];
        lemma_lag_grows(p, 0, p.sent_seq.keys@.len() as int);
        lemma_replicator_lag_grows(r, 0, b - 1);
        if a < b {
            lemma_replicator_lag_grows(r, a, b - 1);
        }
    }
}

// ---- Laws ----

/// Only the owner of a vBucket replicates its changes.
pub proof fn law_only_the_owner_replicates(cluster: ClusterView, vbucket_id: u16)
    requires
        is_replicated(cluster, vbucket_id),
    ensures
        cluster.partition_map.map[vbucket_id as int].active == cluster.self_node.name,
{
}

/// The acknowledgement of a vBucket is at least the sequence number of every change to it that was
/// taken in.
pub proof fn law_acks_cover_what_was_taken(
    mutations: Seq<ReplicationMutation>,
    taken: Seq<bool>,
    k: int,
    i: int,
)
    requires
        0 <= i < k <= mutations.len(),
        mutations.len() == taken.len(),
        taken[i],
    ensures
        acks_of(mutations, taken, k).contains_key(mutations[i].vbucket_id),
        acks_of(mutations, taken, k)[mutations[i].vbucket_id] >= mutations[i].seq_no,
    decreases k,
{
    if i < k - 1 {
        law_acks_cover_what_was_taken(mutations, taken, k - 1, i);
    }
}

/// Every acknowledged sequence number is zero or that of a change that was taken in.
pub proof fn law_acks_come_from_changes(
    mutations: Seq<ReplicationMutation>,
    taken: Seq<bool>,
    k: int,
    vb: u16,
)
    requires
        0 <= k <= mutations.len(),
        mutations.len() == taken.len(),
        acks_of(mutations, taken, k).contains_key(vb),
    ensures
        acks_of(mutations, taken, k)[vb] == 0 || exists|i: int|
            0 <= i < k && taken[i] && (#[trigger] mutations[i]).vbucket_id == vb && mutations[i].seq_no
                == acks_of(mutations, taken, k)[vb],
    decreases k,
{
    if k > 0 {
        let rest = acks_of(mutations, taken, k - 1);
        let m = mutations[k - 1];
        if rest.contains_key(vb) {
            law_acks_come_from_changes(mutations, taken, k - 1, vb);
            if rest[vb] != 0 {
                let i = choose|i: int|
                    0 <= i < k - 1 && taken[i] && (#[trigger] mutations[i]).vbucket_id == vb
                        && mutations[i].seq_no == rest[vb];
                assert(mutations[i].seq_no == rest[vb]);
            }
        }
        if taken[k - 1] && m.vbucket_id == vb {
            assert(mutations[k - 1].vbucket_id == vb);
        }
    }
}

/// Every change is replicated as what it is: a deletion exactly if the event is one, with the place,
/// the key, the value and the numbers of the event, and with the name of the sender.
pub proof fn law_changes_are_replicated_as_they_are(event: DcpEventView, node: Seq<char>)
    ensures
        replicated(event, node).deleted <==> event.event_type == DcpEventType::Deletion,
        replicated(event, node).bucket == event.bucket,
        replicated(event, node).vbucket_id == event.vbucket_id,
        replicated(event, node).key == event.key,
        replicated(event, node).value == event.value,
        replicated(event, node).cas == event.cas,
        replicated(event, node).seq_no == event.seq_no,
        replicated(event, node).expiry == event.expiry,
        replicated(event, node).flags == event.flags,
        replicated(event, node).source_node == node,
{
}

/// A deletion that is published reaches the replicas as a deletion without a value, and a value that
/// is published reaches them as that value, not deleted.
pub proof fn law_deletions_reach_the_replicas(
    seq: u64,
    bucket: Seq<char>,
    scope: Seq<char>,
    collection: Seq<char>,
    key: Seq<char>,
    value: Option<Seq<char>>,
    cas: u64,
    vbucket_id: u16,
    expiry: u32,
    now: i128,
    node: Seq<char>,
)
    ensures
        ({
            let gone = replicated(
                removal_event(
                    DcpEventType::Deletion,
                    seq,
                    bucket,
                    scope,
                    collection,
                    key,
                    cas,
                    vbucket_id,
                    now,
                ),
                node,
            );
            let kept = replicated(
                mutation_event(
                    seq,
                    bucket,
                    scope,
                    collection,
                    key,
                    value,
                    cas,
                    vbucket_id,
                    expiry,
                    now,
                ),
                node,
            );
            &&& gone.deleted && gone.value is None
            &&& !kept.deleted && kept.value == value && kept.expiry == expiry
            &&& gone.key == key && kept.key == key
            &&& gone.bucket == bucket && kept.bucket == bucket
            &&& gone.vbucket_id == vbucket_id && kept.vbucket_id == vbucket_id
            &&& gone.cas == cas && kept.cas == cas
            &&& gone.seq_no == seq && kept.seq_no == seq
        }),
{
}

/// A change is replicated exactly where this node owns the vBucket and there is a replica.
pub proof fn law_owned_changes_are_replicated(cluster: ClusterView, vbucket_id: u16)
    requires
        vbucket_id < cluster.partition_map.map.len(),
    ensures
        is_replicated(cluster, vbucket_id) <==> cluster.partition_map.map[vbucket_id as int].active
            == cluster.self_node.name && cluster.partition_map.map[vbucket_id as int].replicas
            != Seq::<Seq<char>>::empty(),
{
    let replicas = cluster.partition_map.map[vbucket_id as int].replicas;
    if replicas.len() == 0 {
        assert(replicas =~= Seq::<Seq<char>>::empty());
    }
}

proof fn lemma_reachable(cluster: ClusterView, replicas: Seq<Seq<char>>, k: int)
    requires
        0 <= k <= replicas.len(),
    ensures
        reachable(cluster, replicas, k).len() <= k,
        forall|i: int|
            0 <= i < k && cluster.has_node(#[trigger] replicas[i]) ==> reachable(
                cluster,
                replicas,
                k,
            ).contains((replicas[i], cluster.address(replicas[i]))),
        forall|j: int|
            0 <= j < reachable(cluster, replicas, k).len() ==> {
                let t = #[trigger] reachable(cluster, replicas, k)[j];
                cluster.has_node(t.0) && t.1 == cluster.address(t.0) && replicas.contains(t.0)
            },
    decreases k,
{
    if k > 0 {
        lemma_reachable(cluster, replicas, k - 1);
        let rest = reachable(cluster, replicas, k - 1);
        let all = reachable(cluster, replicas, k);
        let last = (replicas[k - 1], cluster.address(replicas[k - 1]));
        assert(replicas.contains(replicas[k - 1]));
        assert forall|i: int| 0 <= i < k && cluster.has_node(#[trigger] replicas[i]) implies
            all.contains((replicas[i], cluster.address(replicas[i]))) by {
            let t = (replicas[i], cluster.address(replicas[i]));
            if i < k - 1 {
                let j = choose|j: int| 0 <= j < rest.len() && rest[j] == t;
                assert(all[j] == t);
            } else {
                assert(all == rest.push(last));
                assert(all[rest.len() as int] == t);
            }
        }
        assert forall|j: int| 0 <= j < all.len() implies {
            let t = #[trigger] all[j];
            cluster.has_node(t.0) && t.1 == cluster.address(t.0) && replicas.contains(t.0)
        } by {
            if j < rest.len() {
                assert(all[j] == rest[j]);
            }
        }
    }
}

/// A change goes to every replica that is a node of the cluster, under its address, and nowhere
/// else.
pub proof fn law_changes_go_to_every_replica(cluster: ClusterView, replicas: Seq<Seq<char>>)
    ensures
        reachable(cluster, replicas, replicas.len() as int).len() <= replicas.len(),
        forall|name: Seq<char>|
            replicas.contains(name) && cluster.has_node(name) <==> reachable(
                cluster,
                replicas,
                replicas.len() as int,
            ).contains((name, #[trigger] cluster.address(name))),
{
    let n = replicas.len() as int;
    lemma_reachable(cluster, replicas, n);
    let all = reachable(cluster, replicas, n);
    assert forall|name: Seq<char>|
        replicas.contains(name) && cluster.has_node(name) <==> all.contains(
            (name, #[trigger] cluster.address(name)),
        ) by {
        if replicas.contains(name) && cluster.has_node(name) {
            let i = choose|i: int| 0 <= i < n && replicas[i] == name;
            assert(cluster.has_node(replicas[i]));
        }
        if all.contains((name, cluster.address(name))) {
            let j = choose|j: int| 0 <= j < all.len() && all[j] == (name, cluster.address(name));
            assert(cluster.has_node(all[j].0));
        }
    }
}

/// A change that was sent moves its replica to its sequence number and counts once, here and in
/// its vBucket; one that could not be sent counts as one error. No other vBucket or replica is
/// touched, and acknowledgements are not.
pub proof fn law_progress_is_counted(s: ReplicatorView, vb: u16, replica: Seq<char>, seq: u64)
    requires
        s.progress.contains_key(vb),
        s.progress[vb].total_replicated < u64::MAX,
        s.progress[vb].total_errors < u64::MAX,
        s.total_replicated < u64::MAX,
        s.total_errors < u64::MAX,
    ensures
        ({
            let sent = s.sent(vb, replica, seq);
            let failed = s.failed(vb);
            let p = s.progress[vb];
            &&& sent.progress.contains_key(vb) && sent.progress[vb].sent_seq[replica] == seq
            &&& forall|other: Seq<char>|
                other != replica ==> (#[trigger] sent.progress[vb].sent_seq.contains_key(other)
                    == p.sent_seq.contains_key(other)) && (p.sent_seq.contains_key(other)
                    ==> sent.progress[vb].sent_seq[other] == p.sent_seq[other])
            &&& sent.progress[vb].total_replicated == p.total_replicated + 1
            &&& sent.progress[vb].total_errors == p.total_errors
            &&& sent.progress[vb].acked_seq == p.acked_seq
            &&& sent.total_replicated == s.total_replicated + 1
            &&& sent.total_errors == s.total_errors
            &&& sent.active == s.active
            &&& failed.progress[vb] == (ProgressView {
                total_errors: (p.total_errors + 1) as u64,
                ..p
            })
            &&& failed.total_errors == s.total_errors + 1
            &&& failed.total_replicated == s.total_replicated
            &&& failed.active == s.active
            &&& forall|other: u16|
                other != vb && #[trigger] s.progress.contains_key(other) ==> sent.progress[other]
                    == s.progress[other] && failed.progress[other] == s.progress[other]
        }),
{
}

/// What was applied and what was rejected make up the batch, and what was applied is what was taken.
pub proof fn law_applied_changes_are_counted(taken: Seq<bool>, k: int)
    requires
        0 <= k <= taken.len(),
    ensures
        count_true(taken, k) == taken.take(k).filter(|t: bool| t).len(),
        count_true(taken, k) <= k,
    decreases k,
{
    reveal(Seq::filter);
    if k > 0 {
        law_applied_changes_are_counted(taken, k - 1);
        assert(taken.take(k).drop_last() =~= taken.take(k - 1));
    }
}

/// A replica lags behind by what was sent to it and is not acknowledged; one that has acknowledged
/// all does not lag.
pub proof fn law_replicas_lag_by_what_is_not_acknowledged(p: VBucketReplicationProgress, i: int)
    requires
        0 <= i < p.sent_seq.keys@.len(),
        p.wf(),
    ensures
        ({
            let name = p.sent_seq.keys@[i]@;
            let sent = p.sent_seq.vals@[i];
            let known = p.acked_seq@.contains_key(name);
            &&& known && p.acked_seq@[name] <= sent ==> p.lag_at(i) == sent - p.acked_seq@[name]
            &&& known && p.acked_seq@[name] > sent ==> p.lag_at(i) == 0
            &&& !known ==> p.lag_at(i) == sent
        }),
{
}

/// The lag of a vBucket is that of its replicas together, and the lag of a node that of its vBuckets.
pub proof fn law_lags_are_added_up(p: VBucketReplicationProgress, r: IntraClusterReplicator)
    requires
        p.wf(),
    ensures
        p.total_lag() == Seq::new(p.sent_seq.keys@.len(), |i: int| p.lag_at(i)).fold_left(
            0,
            |sum: int, n: int| sum + n,
        ),
        r.total_lag() == Seq::new(
            r.progress.vals@.len(),
            |i: int| r.progress.vals@[i].total_lag(),
        ).fold_left(0, |sum: int, n: int| sum + n),
{
    let a = Seq::new(p.sent_seq.keys@.len(), |i: int| p.lag_at(i));
    assert(a.take(a.len() as int) =~= a);
    lemma_lag(p, p.sent_seq.keys@.len() as int);
    let b = Seq::new(r.progress.vals@.len(), |i: int| r.progress.vals@[i].total_lag());
    assert(b.take(b.len() as int) =~= b);
    lemma_lags(r, r.progress.vals@.len() as int);
}

proof fn lemma_lag(p: VBucketReplicationProgress, k: int)
    requires
        0 <= k <= p.sent_seq.keys@.len(),
    ensures
        p.lag(k) == Seq::new(p.sent_seq.keys@.len(), |i: int| p.lag_at(i)).take(k).fold_left(
            0,
            |sum: int, n: int| sum + n,
        ),
    decreases k,
{
    let a = Seq::new(p.sent_seq.keys@.len(), |i: int| p.lag_at(i));
    if k > 0 {
        lemma_lag(p, k - 1);
        assert(a.take(k).drop_last() =~= a.take(k - 1));
    }
}

proof fn lemma_lags(r: IntraClusterReplicator, k: int)
    requires
        0 <= k <= r.progress.vals@.len(),
    ensures
        r.lag(k) == Seq::new(
            r.progress.vals@.len(),
            |i: int| r.progress.vals@[i].total_lag(),
        ).take(k).fold_left(0, |sum: int, n: int| sum + n),
    decreases k,
{
    let b = Seq::new(r.progress.vals@.len(), |i: int| r.progress.vals@[i].total_lag());
    if k > 0 {
        lemma_lags(r, k - 1);
        assert(b.take(k).drop_last() =~= b.take(k - 1));
    }
}

/// A change expires as many seconds after it is applied as it says.
pub proof fn law_changes_expire_after_their_seconds(expiry: u64, now: i128)
    requires
        expiry <= i64::MAX,
    ensures
        expires_at(expiry, now) - now == expiry * 1_000_000_000,
{
}

/// A change of a vBucket that is not in the map is not replicated.
pub proof fn law_unknown_vbuckets_are_not_replicated(cluster: ClusterView, vbucket_id: u16)
    requires
        vbucket_id >= cluster.partition_map.map.len(),
    ensures
        !is_replicated(cluster, vbucket_id),
{
}

} // verus!
