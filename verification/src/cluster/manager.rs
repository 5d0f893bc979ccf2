//! The cluster manager: membership, rebalance, failover, orchestrator and server groups.

use crate::clock::{random_id, seconds_between, seconds_since, utc_now};
use crate::cluster::chronicle::{Chronicle, ChronicleView, ConfigChangeType, ConfigProposal};
use crate::cluster::failover::{
    elapsed_secs, event_of, place_of, EventView, FailoverConfig, FailoverEvent, FailoverManager,
    FailoverState, FailoverType, FailoverView,
};
use crate::cluster::node::{
    url_of, ClusterNode, GroupView, NodeStatus, NodeView, ServerGroup,
};
use crate::cluster::orchestrator::{
    elect_orchestrator, elected_place, is_elected, names_of, OrchestratorRole, OrchestratorState,
    OrchestratorView,
};
use crate::cluster::partition::{
    first_mentions, owners, text_map, transfer_views, NodePartitionInfo, OwnershipView,
    PartitionMap, PartitionMapView, Progress, RebalanceStatus, TransferStatus, TransferView,
    VBucketTransfer,
};
use crate::config::ServerConfig;
use crate::error::{NosqlError, Result};
use crate::json_text::{json_items, json_quoted, push_json_list, push_json_quoted};
use crate::strmap::StrMap;
use crate::text::{dec, push_dec, same_text, texts};
use vstd::prelude::*;
use vstd::string::*;

verus! {

/// Cluster information.
#[derive(Debug)]
pub struct ClusterInfo {
    pub name: String,
    pub uuid: String,
    pub nodes: Vec<ClusterNode>,
    pub bucket_count: usize,
    pub partition_map_revision: u64,
    pub total_vbuckets: u16,
    pub orchestrator: OrchestratorState,
}

/// The state of the cluster as one node sees it.
pub struct ClusterManager {
    pub cluster_name: String,
    pub cluster_uuid: String,
    /// The nodes, under different names, in the order in which they joined.
    pub nodes: Vec<ClusterNode>,
    pub self_node: ClusterNode,
    pub partition_map: PartitionMap,
    pub rebalance_status: RebalanceStatus,
    pub pending_transfers: Vec<VBucketTransfer>,
    pub num_vbuckets: u16,
    pub failover_manager: FailoverManager,
    pub orchestrator_state: OrchestratorState,
    pub chronicle: Chronicle,
    /// The server groups, under different names.
    pub server_groups: Vec<ServerGroup>,
    /// Whether traffic between nodes is encrypted.
    pub cluster_encryption: bool,
}

/// What a [`ClusterManager`] stands for.
#[verifier::ext_equal]
pub struct ClusterView {
    pub cluster_name: Seq<char>,
    pub cluster_uuid: Seq<char>,
    pub nodes: Seq<NodeView>,
    pub self_node: NodeView,
    pub partition_map: PartitionMapView,
    pub rebalance_status: RebalanceStatus,
    pub pending: Seq<TransferView>,
    pub num_vbuckets: u16,
    pub failover: FailoverView,
    pub orchestrator: OrchestratorView,
    pub chronicle: ChronicleView,
    pub groups: Seq<GroupView>,
    pub cluster_encryption: bool,
}

/// What a list of nodes stands for.
pub open spec fn node_views(v: Seq<ClusterNode>) -> Seq<NodeView> {
    Seq::new(v.len(), |i: int| v[i]@)
}

/// What a list of server groups stands for.
pub open spec fn group_views(v: Seq<ServerGroup>) -> Seq<GroupView> {
    Seq::new(v.len(), |i: int| v[i]@)
}

/// The names of nodes.
pub open spec fn node_names(nodes: Seq<NodeView>) -> Seq<Seq<char>> {
    Seq::new(nodes.len(), |i: int| nodes[i].name)
}

/// The names of server groups.
pub open spec fn group_names(groups: Seq<GroupView>) -> Seq<Seq<char>> {
    Seq::new(groups.len(), |i: int| groups[i].name)
}

/// Whether a node owns data: it is neither failed nor failed over.
pub open spec fn in_service(status: NodeStatus) -> bool {
    status != NodeStatus::Failed && status != NodeStatus::FailedOver
}

/// The names of the nodes in service among the first `k`.
pub open spec fn service_names(nodes: Seq<NodeView>, k: int) -> Seq<Seq<char>>
    decreases k,
{
    if k <= 0 {
        Seq::empty()
    } else if in_service(nodes[k - 1].status) {
        service_names(nodes, k - 1).push(nodes[k - 1].name)
    } else {
        service_names(nodes, k - 1)
    }
}

/// Whether a node takes part in the election of the orchestrator.
pub open spec fn electable(status: NodeStatus) -> bool {
    status == NodeStatus::Healthy || status == NodeStatus::Warmup
}

/// The nodes among the first `k` that take part in the election.
pub open spec fn electorate(nodes: Seq<NodeView>, k: int) -> Seq<NodeView>
    decreases k,
{
    if k <= 0 {
        Seq::empty()
    } else if electable(nodes[k - 1].status) {
        electorate(nodes, k - 1).push(nodes[k - 1])
    } else {
        electorate(nodes, k - 1)
    }
}

/// The server groups of the first `k` nodes.
pub open spec fn group_map(nodes: Seq<NodeView>, k: int) -> Map<Seq<char>, Seq<char>>
    decreases k,
{
    if k <= 0 {
        Map::empty()
    } else {
        group_map(nodes, k - 1).insert(nodes[k - 1].name, nodes[k - 1].server_group)
    }
}

/// Whether the nodes are in more than one server group.
pub open spec fn several_groups(nodes: Seq<NodeView>) -> bool {
    exists|i: int|
        0 <= i < nodes.len() && (#[trigger] nodes[i]).server_group != nodes[0].server_group
}

/// The texts of a list other than `name`, among the first `k`.
pub open spec fn without(list: Seq<Seq<char>>, name: Seq<char>, k: int) -> Seq<Seq<char>>
    decreases k,
{
    if k <= 0 {
        Seq::empty()
    } else if list[k - 1] == name {
        without(list, name, k - 1)
    } else {
        without(list, name, k - 1).push(list[k - 1])
    }
}

/// The texts of a list other than `name`.
pub open spec fn without_name(list: Seq<Seq<char>>, name: Seq<char>) -> Seq<Seq<char>> {
    without(list, name, list.len() as int)
}

/// The ownership of a vBucket after a node failed: its first replica takes over, and the node
/// is no longer listed as a replica.
pub open spec fn promoted_entry(entry: OwnershipView, failed: Seq<char>) -> OwnershipView {
    if entry.active == failed && entry.replicas.len() > 0 {
        OwnershipView {
            active: entry.replicas[0],
            replicas: without_name(without_name(entry.replicas, entry.replicas[0]), failed),
        }
    } else {
        OwnershipView { replicas: without_name(entry.replicas, failed), ..entry }
    }
}

/// How many of the first `k` vBuckets a node owns.
pub open spec fn owned_count(map: Seq<OwnershipView>, node: Seq<char>, k: int) -> nat
    decreases k,
{
    if k <= 0 {
        0
    } else {
        owned_count(map, node, k - 1) + if map[k - 1].active == node {
            1nat
        } else {
            0nat
        }
    }
}

/// How many of the first `k` vBuckets a node owns that have a replica.
pub open spec fn covered_count(map: Seq<OwnershipView>, node: Seq<char>, k: int) -> nat
    decreases k,
{
    if k <= 0 {
        0
    } else {
        covered_count(map, node, k - 1) + if map[k - 1].active == node && map[k - 1].replicas.len()
            > 0 {
            1nat
        } else {
            0nat
        }
    }
}

/// The place of the first transfer of a vBucket at or after place `i`.
pub open spec fn transfer_place(pending: Seq<TransferView>, vbucket_id: u16, i: int) -> Option<int>
    decreases pending.len() - i,
{
    if i < 0 || i >= pending.len() {
        None
    } else if pending[i].vbucket_id == vbucket_id {
        Some(i)
    } else {
        transfer_place(pending, vbucket_id, i + 1)
    }
}

/// The place of the first transfer of a vBucket that still waits, at or after place `i`.
pub open spec fn waiting_place(pending: Seq<TransferView>, vbucket_id: u16, i: int) -> Option<int>
    decreases pending.len() - i,
{
    if i < 0 || i >= pending.len() {
        None
    } else if pending[i].vbucket_id == vbucket_id && pending[i].status == TransferStatus::Pending {
        Some(i)
    } else {
        waiting_place(pending, vbucket_id, i + 1)
    }
}

/// How many of the first `k` transfers are completed; failed ones count too where asked.
pub open spec fn finished_count(pending: Seq<TransferView>, with_failed: bool, k: int) -> nat
    decreases k,
{
    if k <= 0 {
        0
    } else {
        finished_count(pending, with_failed, k - 1) + if pending[k - 1].status
            == TransferStatus::Completed || (with_failed && pending[k - 1].status
            == TransferStatus::Failed) {
            1nat
        } else {
            0nat
        }
    }
}

/// The transfers among the first `k` that still wait.
pub open spec fn waiting(pending: Seq<TransferView>, k: int) -> Seq<TransferView>
    decreases k,
{
    if k <= 0 {
        Seq::empty()
    } else if pending[k - 1].status == TransferStatus::Pending {
        waiting(pending, k - 1).push(pending[k - 1])
    } else {
        waiting(pending, k - 1)
    }
}

/// What a health check makes of a node.
pub open spec fn checked_node(node: NodeView, self_name: Seq<char>, now: i128) -> NodeView {
    let elapsed = seconds_between(now as int, node.last_heartbeat as int);
    if node.name == self_name {
        NodeView { last_heartbeat: now, ..node }
    } else if node.status == NodeStatus::FailedOver {
        node
    } else if elapsed > 30 {
        if electable(node.status) {
            node.with_status(NodeStatus::Unhealthy)
        } else {
            node
        }
    } else if elapsed > 10 {
        if node.status == NodeStatus::Healthy {
            node.with_status(NodeStatus::Unhealthy)
        } else {
            node
        }
    } else if node.status == NodeStatus::Unhealthy {
        node.with_status(NodeStatus::Healthy)
    } else {
        node
    }
}

/// Whether a health check finds that a node has been silent for too long.
pub open spec fn is_silent(node: NodeView, self_name: Seq<char>, now: i128) -> bool {
    &&& node.name != self_name
    &&& node.status != NodeStatus::FailedOver
    &&& seconds_between(now as int, node.last_heartbeat as int) > 10
}

/// Whether a health check finds that an unhealthy node is back.
pub open spec fn is_back(node: NodeView, self_name: Seq<char>, now: i128) -> bool {
    &&& node.name != self_name
    &&& node.status == NodeStatus::Unhealthy
    &&& seconds_between(now as int, node.last_heartbeat as int) <= 10
}

/// The names of the silent nodes among the first `k`.
pub open spec fn silent_names(nodes: Seq<NodeView>, self_name: Seq<char>, now: i128, k: int) -> Seq<
    Seq<char>,
>
    decreases k,
{
    if k <= 0 {
        Seq::empty()
    } else if is_silent(nodes[k - 1], self_name, now) {
        silent_names(nodes, self_name, now, k - 1).push(nodes[k - 1].name)
    } else {
        silent_names(nodes, self_name, now, k - 1)
    }
}

/// The names of the nodes among the first `k` that are back.
pub open spec fn back_names(nodes: Seq<NodeView>, self_name: Seq<char>, now: i128, k: int) -> Seq<
    Seq<char>,
>
    decreases k,
{
    if k <= 0 {
        Seq::empty()
    } else if is_back(nodes[k - 1], self_name, now) {
        back_names(nodes, self_name, now, k - 1).push(nodes[k - 1].name)
    } else {
        back_names(nodes, self_name, now, k - 1)
    }
}

/// How many of the first `k` nodes are healthy.
pub open spec fn healthy_count(nodes: Seq<NodeView>, k: int) -> nat
    decreases k,
{
    if k <= 0 {
        0
    } else {
        healthy_count(nodes, k - 1) + if nodes[k - 1].status == NodeStatus::Healthy {
            1nat
        } else {
            0nat
        }
    }
}

/// The failover state after clearing the timers of the first `k` names.
pub open spec fn timers_cleared(fm: FailoverView, names: Seq<Seq<char>>, k: int) -> FailoverView
    decreases k,
{
    if k <= 0 {
        fm
    } else {
        timers_cleared(fm, names, k - 1).timer_cleared(names[k - 1])
    }
}

/// The failover state after starting the timers of the first `k` names.
pub open spec fn timers_started(fm: FailoverView, names: Seq<Seq<char>>, now: i128, k: int) -> FailoverView
    decreases k,
{
    if k <= 0 {
        fm
    } else {
        timers_started(fm, names, now, k - 1).timer_started(names[k - 1], now)
    }
}

/// Whether the failover of a node would lose data: it owns a vBucket that has no replica.
pub open spec fn loses_data(map: Seq<OwnershipView>, node: Seq<char>) -> bool {
    exists|vb: int|
        0 <= vb < map.len() && (#[trigger] map[vb]).active == node && map[vb].replicas.len() == 0
}

/// The name of a failover type.
pub open spec fn failover_type_name(t: FailoverType) -> Seq<char> {
    match t {
        FailoverType::Automatic => "Automatic"@,
        FailoverType::Graceful => "Graceful"@,
        FailoverType::Hard => "Hard"@,
    }
}

/// The name of a node status.
pub open spec fn status_name(s: NodeStatus) -> Seq<char> {
    match s {
        NodeStatus::Healthy => "Healthy"@,
        NodeStatus::Warmup => "Warmup"@,
        NodeStatus::Unhealthy => "Unhealthy"@,
        NodeStatus::Failed => "Failed"@,
        NodeStatus::FailedOver => "FailedOver"@,
    }
}

/// The payload that names a node.
pub open spec fn node_payload(name: Seq<char>) -> Seq<char> {
    "{\"node\":"@ + json_quoted(name) + "}"@
}

/// The payload that names a server group.
pub open spec fn group_payload(name: Seq<char>) -> Seq<char> {
    "{\"group\":"@ + json_quoted(name) + "}"@
}

/// The payload of a new partition map.
pub open spec fn map_payload(old_rev: u64, new_rev: u64, transfers: nat, nodes: Seq<Seq<char>>) -> Seq<
    char,
> {
    "{\"new_revision\":"@ + dec(new_rev as nat) + ",\"nodes\":"@ + ("["@ + json_items(nodes) + "]"@)
        + ",\"old_revision\":"@ + dec(old_rev as nat) + ",\"transfers\":"@ + dec(transfers) + "}"@
}

/// The payload of a failover.
pub open spec fn failover_payload(
    node: Seq<char>,
    failover_type: FailoverType,
    affected: nat,
    promoted: nat,
) -> Seq<char> {
    "{\"failover_type\":"@ + json_quoted(failover_type_name(failover_type)) + ",\"node\":"@
        + json_quoted(node) + ",\"replicas_promoted\":"@ + dec(promoted)
        + ",\"vbuckets_affected\":"@ + dec(affected) + "}"@
}

/// The reason of an automatic failover.
pub open spec fn silence_reason(elapsed: int, timeout_secs: u64) -> Seq<char> {
    "No heartbeat for "@ + dec(elapsed as nat) + "s (timeout: "@ + dec(timeout_secs as nat) + "s)"@
}

impl ClusterView {
    /// The names of the nodes in service.
    pub open spec fn service(self) -> Seq<Seq<char>> {
        service_names(self.nodes, self.nodes.len() as int)
    }

    /// The place of a node.
    pub open spec fn node_place(self, name: Seq<char>) -> Option<int> {
        place_of(node_names(self.nodes), name, 0)
    }

    pub open spec fn has_node(self, name: Seq<char>) -> bool {
        node_names(self.nodes).contains(name)
    }

    /// The cluster in which no two nodes, and no two groups, have the same name.
    pub open spec fn valid(self) -> bool {
        &&& node_names(self.nodes).no_duplicates()
        &&& group_names(self.groups).no_duplicates()
        &&& self.failover.failed_over_nodes.no_duplicates()
    }

    /// Whether the counters can be raised `n` times.
    pub open spec fn room(self, n: int) -> bool {
        &&& self.chronicle.next_index + n <= u64::MAX
        &&& self.chronicle.term + n <= u64::MAX
        &&& self.partition_map.revision + n <= u64::MAX
        &&& self.orchestrator.revision + n <= u64::MAX
    }

    /// After a change is proposed to Chronicle, which only the leader takes up.
    pub open spec fn told(self, change_type: ConfigChangeType, payload: Seq<char>, now: i128) -> Self {
        if self.chronicle.is_leader {
            ClusterView {
                chronicle: self.chronicle.proposed(
                    self.chronicle.new_entry(change_type, payload, self.self_node.name, now),
                ),
                ..self
            }
        } else {
            self
        }
    }

    /// The partition map after a rebalance, which minds server groups where there are several.
    pub open spec fn map_over(self, names: Seq<Seq<char>>) -> PartitionMapView {
        if several_groups(self.nodes) {
            self.partition_map.group_rebalanced(
                names,
                group_map(self.nodes, self.nodes.len() as int),
            )
        } else {
            self.partition_map.rebalanced(names)
        }
    }

    /// After a rebalance to a new map, with these transfers.
    pub open spec fn remapped(self, map: PartitionMapView, transfers: Seq<TransferView>) -> Self {
        if transfers.len() > 0 {
            ClusterView {
                partition_map: map,
                rebalance_status: RebalanceStatus {
                    in_progress: true,
                    progress: Progress::NotStarted,
                    transfers_total: transfers.len() as usize,
                    transfers_completed: 0,
                    source_map_revision: self.partition_map.revision,
                    target_map_revision: map.revision,
                },
                pending: transfers,
                ..self
            }
        } else {
            ClusterView {
                partition_map: map,
                rebalance_status: RebalanceStatus {
                    in_progress: false,
                    progress: Progress::Done,
                    ..self.rebalance_status
                },
                ..self
            }
        }
    }

    /// After a rebalance over `names`.
    pub open spec fn rebalanced_over(self, names: Seq<Seq<char>>, now: i128) -> Self {
        let transfers = self.partition_map.rebalance_transfers(names);
        let map = self.map_over(names);
        let after = self.remapped(map, transfers);
        if transfers.len() > 0 {
            after.told(
                ConfigChangeType::PartitionMapUpdate,
                map_payload(self.partition_map.revision, map.revision, transfers.len(), names),
                now,
            )
        } else {
            after
        }
    }

    /// After promoting replicas of the vBuckets that a node owned.
    pub open spec fn promoted(self, failed: Seq<char>) -> Self {
        let map = self.partition_map.map;
        ClusterView {
            partition_map: PartitionMapView {
                map: Seq::new(map.len(), |i: int| promoted_entry(map[i], failed)),
                revision: if covered_count(map, failed, map.len() as int) > 0 {
                    (self.partition_map.revision + 1) as u64
                } else {
                    self.partition_map.revision
                },
                ..self.partition_map
            },
            ..self
        }
    }

    /// After a node got a status.
    pub open spec fn with_status(self, name: Seq<char>, status: NodeStatus) -> Self {
        match self.node_place(name) {
            Some(i) => ClusterView {
                nodes: self.nodes.update(i, self.nodes[i].with_status(status)),
                ..self
            },
            None => self,
        }
    }

    /// After the election of the orchestrator; nothing changes where no node can be elected.
    pub open spec fn orchestrated(self) -> Self {
        let voters = electorate(self.nodes, self.nodes.len() as int);
        if voters.len() == 0 {
            self
        } else {
            let leader = voters[elected_place(node_names(voters))];
            let mine = leader.name == self.self_node.name;
            let changed = leader.name != self.orchestrator.node;
            ClusterView {
                orchestrator: OrchestratorView {
                    node: leader.name,
                    role: if mine {
                        OrchestratorRole::Orchestrator
                    } else {
                        OrchestratorRole::Follower
                    },
                    url: Some(url_of(leader.hostname, leader.port)),
                    participating_nodes: voters.len() as usize,
                    revision: if changed {
                        (self.orchestrator.revision + 1) as u64
                    } else {
                        self.orchestrator.revision
                    },
                },
                chronicle: ChronicleView {
                    is_leader: mine,
                    cluster_size: voters.len() as usize,
                    term: if changed {
                        (self.chronicle.term + 1) as u64
                    } else {
                        self.chronicle.term
                    },
                    ..self.chronicle
                },
                ..self
            }
        }
    }

    /// After telling Chronicle how many nodes are in service.
    pub open spec fn sized(self) -> Self {
        let n = self.service().len() as usize;
        ClusterView {
            chronicle: ChronicleView {
                cluster_size: if n < 1 {
                    1
                } else {
                    n
                },
                ..self.chronicle
            },
            ..self
        }
    }

    /// After a node has been entered into the list, before the rebalance.
    pub open spec fn joined(self, node: NodeView, now: i128) -> Self {
        ClusterView { nodes: self.nodes.push(node), ..self }.sized().told(
            ConfigChangeType::NodeAdd,
            node_payload(node.name),
            now,
        )
    }

    /// After a node was added.
    pub open spec fn node_added(self, node: NodeView, now: i128) -> Self {
        let s = self.joined(node, now);
        s.rebalanced_over(s.service(), now).orchestrated()
    }

    /// After a node has been taken off the list, before the rebalance.
    pub open spec fn left(self, name: Seq<char>, now: i128) -> Self {
        let i = self.node_place(name)->0;
        ClusterView {
            nodes: self.nodes.remove(i),
            failover: self.failover.recovered(name).timer_cleared(name),
            ..self
        }.sized().told(ConfigChangeType::NodeRemove, node_payload(name), now)
    }

    /// After a node was removed.
    pub open spec fn node_removed(self, name: Seq<char>, now: i128) -> Self {
        let s = self.left(name, now);
        s.rebalanced_over(s.service(), now).orchestrated()
    }

    /// After marking a node as failed over and promoting its replicas.
    pub open spec fn cut_off(self, name: Seq<char>) -> Self {
        self.with_status(name, NodeStatus::FailedOver).promoted(name)
    }

    /// The event of a failover.
    pub open spec fn failover_event(
        self,
        name: Seq<char>,
        failover_type: FailoverType,
        reason: Seq<char>,
        id: Seq<char>,
        now: i128,
    ) -> EventView {
        let map = self.partition_map.map;
        event_of(
            id,
            name,
            failover_type,
            reason,
            owned_count(map, name, map.len() as int) as usize,
            covered_count(map, name, map.len() as int) as usize,
            self.cut_off(name).service().len() > 0,
            now,
        )
    }

    /// After a failover.
    pub open spec fn failed_over(
        self,
        name: Seq<char>,
        failover_type: FailoverType,
        reason: Seq<char>,
        id: Seq<char>,
        now: i128,
    ) -> Self {
        let event = self.failover_event(name, failover_type, reason, id, now);
        let cut = self.cut_off(name);
        let spread = if event.rebalance_triggered {
            cut.rebalanced_over(cut.service(), now)
        } else {
            cut
        };
        ClusterView { failover: spread.failover.recorded(name, event), ..spread }.told(
            ConfigChangeType::NodeFailover,
            failover_payload(
                name,
                failover_type,
                event.vbuckets_affected as nat,
                event.replicas_promoted as nat,
            ),
            now,
        ).orchestrated()
    }

    /// After a failed node was marked healthy again, before the rebalance.
    pub open spec fn revived(self, name: Seq<char>, now: i128) -> Self {
        let i = self.node_place(name)->0;
        ClusterView {
            nodes: self.nodes.update(
                i,
                NodeView {
                    status: NodeStatus::Healthy,
                    last_heartbeat: now,
                    ..self.nodes[i]
                },
            ),
            failover: self.failover.recovered(name),
            ..self
        }
    }

    /// After the recovery of a node.
    pub open spec fn node_recovered(self, name: Seq<char>, now: i128) -> Self {
        let s = self.revived(name, now);
        s.rebalanced_over(s.service(), now).orchestrated()
    }

    /// After counting how many transfers are finished.
    pub open spec fn counted(self, with_failed: bool) -> Self {
        let total = self.pending.len();
        let completed = finished_count(self.pending, with_failed, total as int);
        ClusterView {
            rebalance_status: RebalanceStatus {
                transfers_completed: completed as usize,
                in_progress: if completed >= total {
                    false
                } else {
                    self.rebalance_status.in_progress
                },
                progress: if completed >= total {
                    Progress::Done
                } else {
                    Progress::Partial { completed: completed as usize, total: total as usize }
                },
                ..self.rebalance_status
            },
            ..self
        }
    }

    /// After a transfer was completed.
    pub open spec fn transfer_completed(self, vbucket_id: u16) -> Self {
        ClusterView {
            pending: match transfer_place(self.pending, vbucket_id, 0) {
                Some(i) => self.pending.update(
                    i,
                    TransferView { status: TransferStatus::Completed, ..self.pending[i] },
                ),
                None => self.pending,
            },
            ..self
        }.counted(false)
    }

    /// After a transfer failed.
    pub open spec fn transfer_failed(self, vbucket_id: u16) -> Self {
        ClusterView {
            pending: match waiting_place(self.pending, vbucket_id, 0) {
                Some(i) => self.pending.update(
                    i,
                    TransferView { status: TransferStatus::Failed, ..self.pending[i] },
                ),
                None => self.pending,
            },
            ..self
        }.counted(true)
    }

    /// After a sign of life of a node.
    pub open spec fn heard(self, name: Seq<char>, now: i128) -> Self {
        match self.node_place(name) {
            Some(i) => ClusterView {
                nodes: self.nodes.update(
                    i,
                    NodeView {
                        last_heartbeat: now,
                        status: if self.nodes[i].status == NodeStatus::Unhealthy {
                            NodeStatus::Healthy
                        } else {
                            self.nodes[i].status
                        },
                        ..self.nodes[i]
                    },
                ),
                ..self
            },
            None => self,
        }
    }

    /// The names of the silent nodes that a health check finds.
    pub open spec fn silent(self, now: i128) -> Seq<Seq<char>> {
        silent_names(self.nodes, self.self_node.name, now, self.nodes.len() as int)
    }

    /// The names of the nodes that a health check finds to be back.
    pub open spec fn back(self, now: i128) -> Seq<Seq<char>> {
        back_names(self.nodes, self.self_node.name, now, self.nodes.len() as int)
    }

    /// After a health check has looked at every node and set the failure timers.
    pub open spec fn examined(self, now: i128) -> Self {
        let back = self.back(now);
        let silent = self.silent(now);
        ClusterView {
            nodes: Seq::new(
                self.nodes.len(),
                |i: int| checked_node(self.nodes[i], self.self_node.name, now),
            ),
            failover: timers_started(
                timers_cleared(self.failover, back, back.len() as int),
                silent,
                now,
                silent.len() as int,
            ),
            ..self
        }
    }

    /// Whether a health check fails a silent node over: its timer is up, an automatic failover may
    /// proceed, and no data would be lost, unless the configuration allows that.
    pub open spec fn dooms(self, name: Seq<char>, now: i128) -> bool {
        &&& self.failover.timeout_reached(name, now)
        &&& self.failover.may_fail_over(
            healthy_count(self.nodes, self.nodes.len() as int) as usize,
            now,
        )
        &&& self.failover.config.failover_on_data_loss || !loses_data(self.partition_map.map, name)
    }

    /// The reason for which a silent node is failed over.
    pub open spec fn silence_of(self, name: Seq<char>, now: i128) -> Seq<char> {
        silence_reason(
            if self.failover.timers.contains_key(name) {
                elapsed_secs(now, self.failover.timers[name])
            } else {
                0
            },
            self.failover.config.timeout_secs,
        )
    }

    /// What becomes of the first `k` of `names` in turn, and the failovers: each name is judged after
    /// the failover of those before it, and each failover gets the next id.
    pub open spec fn purged(
        self,
        names: Seq<Seq<char>>,
        ids: Seq<Seq<char>>,
        now: i128,
        k: int,
    ) -> (Self, Seq<EventView>)
        decreases k,
    {
        if k <= 0 {
            (self, Seq::empty())
        } else {
            let (s, events) = self.purged(names, ids, now, k - 1);
            let name = names[k - 1];
            if s.dooms(name, now) {
                let id = ids[events.len() as int];
                let reason = s.silence_of(name, now);
                (
                    s.failed_over(name, FailoverType::Automatic, reason, id, now),
                    events.push(
                        s.failover_event(name, FailoverType::Automatic, reason, id, now),
                    ),
                )
            } else {
                (s, events)
            }
        }
    }

    /// The failovers of a health check.
    pub open spec fn health_events(self, ids: Seq<Seq<char>>, now: i128) -> Seq<EventView> {
        let names = self.silent(now);
        self.examined(now).purged(names, ids, now, names.len() as int).1
    }

    /// After a health check.
    pub open spec fn health_checked(self, ids: Seq<Seq<char>>, now: i128) -> Self {
        let names = self.silent(now);
        let s = self.examined(now).purged(names, ids, now, names.len() as int).0;
        if names.len() > 0 || self.back(now).len() > 0 {
            s.orchestrated()
        } else {
            s
        }
    }
}

// ---- Payloads ----

/// The payload that names a node.
fn node_payload_text(name: &str) -> (r: String)
    ensures
        r@ == node_payload(name@),
{
    let mut out = "{\"node\":".to_owned();
    push_json_quoted(&mut out, name);
    out.append("}");
    out
}

/// The payload that names a server group.
fn group_payload_text(name: &str) -> (r: String)
    ensures
        r@ == group_payload(name@),
{
    let mut out = "{\"group\":".to_owned();
    push_json_quoted(&mut out, name);
    out.append("}");
    out
}

/// The payload of a new partition map.
fn map_payload_text(old_rev: u64, new_rev: u64, transfers: usize, nodes: &[String]) -> (r: String)
    ensures
        r@ == map_payload(old_rev, new_rev, transfers as nat, texts(nodes@)),
{
    let mut out = "{\"new_revision\":".to_owned();
    push_dec(&mut out, new_rev);
    out.append(",\"nodes\":");
    push_json_list(&mut out, nodes);
    out.append(",\"old_revision\":");
    push_dec(&mut out, old_rev);
    out.append(",\"transfers\":");
    push_dec(&mut out, transfers as u64);
    out.append("}");
    out
}

/// The name of a failover type.
pub fn failover_type_text(t: FailoverType) -> (r: &'static str)
    ensures
        r@ == failover_type_name(t),
{
    match t {
        FailoverType::Automatic => "Automatic",
        FailoverType::Graceful => "Graceful",
        FailoverType::Hard => "Hard",
    }
}

/// The name of a node status.
pub fn status_text(s: NodeStatus) -> (r: &'static str)
    ensures
        r@ == status_name(s),
{
    match s {
        NodeStatus::Healthy => "Healthy",
        NodeStatus::Warmup => "Warmup",
        NodeStatus::Unhealthy => "Unhealthy",
        NodeStatus::Failed => "Failed",
        NodeStatus::FailedOver => "FailedOver",
    }
}

/// The payload of a failover.
fn failover_payload_text(
    node: &str,
    failover_type: FailoverType,
    affected: usize,
    promoted: usize,
) -> (r: String)
    ensures
        r@ == failover_payload(node@, failover_type, affected as nat, promoted as nat),
{
    let mut out = "{\"failover_type\":".to_owned();
    push_json_quoted(&mut out, failover_type_text(failover_type));
    out.append(",\"node\":");
    push_json_quoted(&mut out, node);
    out.append(",\"replicas_promoted\":");
    push_dec(&mut out, promoted as u64);
    out.append(",\"vbuckets_affected\":");
    push_dec(&mut out, affected as u64);
    out.append("}");
    out
}

/// The reason of an automatic failover.
fn silence_text(elapsed: u64, timeout_secs: u64) -> (r: String)
    ensures
        r@ == silence_reason(elapsed as int, timeout_secs),
{
    let mut out = "No heartbeat for ".to_owned();
    push_dec(&mut out, elapsed);
    out.append("s (timeout: ");
    push_dec(&mut out, timeout_secs);
    out.append("s)");
    out
}

/// The texts of a list other than `name`.
fn drop_name(list: &Vec<String>, name: &str) -> (r: Vec<String>)
    ensures
        texts(r@) == without_name(texts(list@), name@),
{
    let ghost all = texts(list@);
    let mut out: Vec<String> = Vec::new();
    let mut k: usize = 0;
    assert(texts(out@) =~= without(all, name@, 0));
    while k < list.len()
        invariant
            k <= list@.len(),
            all == texts(list@),
            texts(out@) == without(all, name@, k as int),
        decreases list@.len() - k,
    {
        let ghost prior = out@;
        assert(all[k as int] == list@[k as int]@);
        if !same_text(list[k].as_str(), name) {
            out.push(list[k].clone());
            assert(texts(out@) =~= texts(prior).push(all[k as int]));
        }
        k = k + 1;
    }
    out
}

/// A copy of a list of transfers.
fn copy_transfers(v: &Vec<VBucketTransfer>) -> (r: Vec<VBucketTransfer>)
    ensures
        r@ == v@,
{
    let mut out: Vec<VBucketTransfer> = Vec::new();
    let mut i: usize = 0;
    while i < v.len()
        invariant
            i <= v@.len(),
            out@ == v@.take(i as int),
        decreases v@.len() - i,
    {
        out.push(v[i].copy());
        i = i + 1;
        assert(out@ =~= v@.take(i as int));
    }
    assert(out@ =~= v@);
    out
}

/// Whether an error says that there is no node of that name.
pub open spec fn no_such_node(e: NosqlError, name: Seq<char>) -> bool {
    match e {
        NosqlError::NodeNotFound(n) => n@ == name,
        _ => false,
    }
}

/// Whether an error says that a request is invalid, with that text.
pub open spec fn invalid(e: NosqlError, text: Seq<char>) -> bool {
    match e {
        NosqlError::InvalidRequest(t) => t@ == text,
        _ => false,
    }
}

// ---- Facts about lists of names ----

proof fn lemma_place_in(list: Seq<Seq<char>>, name: Seq<char>, i: int)
    requires
        0 <= i <= list.len(),
    ensures
        match place_of(list, name, i) {
            Some(p) => i <= p < list.len() && list[p] == name,
            None => forall|k: int| i <= k < list.len() ==> #[trigger] list[k] != name,
        },
    decreases list.len() - i,
{
    if i < list.len() {
        lemma_place_in(list, name, i + 1);
    }
}

pub(crate) proof fn lemma_has_node(v: ClusterView, name: Seq<char>)
    ensures
        v.has_node(name) == v.node_place(name) is Some,
        match v.node_place(name) {
            Some(i) => 0 <= i < v.nodes.len() && v.nodes[i].name == name,
            None => true,
        },
{
    let names = node_names(v.nodes);
    lemma_place_in(names, name, 0);
    match v.node_place(name) {
        Some(i) => {
            assert(names[i] == name);
        },
        None => {},
    }
}

proof fn lemma_counts_bounded(map: Seq<OwnershipView>, node: Seq<char>, k: int)
    requires
        0 <= k,
    ensures
        covered_count(map, node, k) <= owned_count(map, node, k) <= k,
    decreases k,
{
    if k > 0 {
        lemma_counts_bounded(map, node, k - 1);
    }
}

impl View for ClusterManager {
    type V = ClusterView;

    open spec fn view(&self) -> ClusterView {
        ClusterView {
            cluster_name: self.cluster_name@,
            cluster_uuid: self.cluster_uuid@,
            nodes: node_views(self.nodes@),
            self_node: self.self_node@,
            partition_map: self.partition_map@,
            rebalance_status: self.rebalance_status,
            pending: transfer_views(self.pending_transfers@),
            num_vbuckets: self.num_vbuckets,
            failover: self.failover_manager@,
            orchestrator: self.orchestrator_state@,
            chronicle: self.chronicle@,
            groups: group_views(self.server_groups@),
            cluster_encryption: self.cluster_encryption,
        }
    }
}

impl ClusterManager {
    /// Names are unique, the partition map has an entry for each vBucket, and the failover
    /// history is within its bound.
    pub open spec fn wf(self) -> bool {
        &&& self@.valid()
        &&& self.partition_map.wf()
        &&& self.failover_manager.wf()
    }

    /// The place of a node.
    fn find_node(&self, name: &str) -> (r: Option<usize>)
        ensures
            match r {
                Some(i) => self@.node_place(name@) == Some(i as int) && i < self.nodes@.len()
                    && self.nodes@[i as int].name@ == name@ && self@.has_node(name@),
                None => self@.node_place(name@) is None && !self@.has_node(name@),
            },
    {
        let ghost names = node_names(self@.nodes);
        let mut i: usize = 0;
        while i < self.nodes.len()
            invariant
                i <= self.nodes@.len(),
                names == node_names(self@.nodes),
                place_of(names, name@, 0) == place_of(names, name@, i as int),
                forall|k: int| 0 <= k < i ==> #[trigger] names[k] != name@,
            decreases self.nodes@.len() - i,
        {
            assert(names[i as int] == self.nodes@[i as int].name@);
            if same_text(self.nodes[i].name.as_str(), name) {
                return Some(i);
            }
            i = i + 1;
        }
        None
    }

    /// A cluster of one node, with ids and a time.
    pub fn new_at(config: &ServerConfig, uuid: String, group_uuid: String, now: i128) -> (r: Self)
        ensures
            r.wf(),
            r@ == ClusterView::alone(config, uuid@, group_uuid@, now),
    {
        let self_node = ClusterNode::new_self_at(
            config.node_name.clone(),
            config.host.clone(),
            config.port,
            now,
        );
        let mut nodes: Vec<ClusterNode> = Vec::new();
        nodes.push(self_node.copy());
        let mut names: Vec<String> = Vec::new();
        names.push(config.node_name.clone());
        assert(texts(names@) =~= seq![config.node_name@]);
        let partition_map = PartitionMap::new(config.num_vbuckets, 1, names.as_slice());
        let orchestrator_url = self_node.base_url();
        let mut members: Vec<String> = Vec::new();
        members.push(config.node_name.clone());
        assert(texts(members@) =~= seq![config.node_name@]);
        let mut server_groups: Vec<ServerGroup> = Vec::new();
        server_groups.push(
            ServerGroup { name: "Group 1".to_owned(), uuid: group_uuid, nodes: members },
        );
        let r = ClusterManager {
            cluster_name: "oxidedb-cluster".to_owned(),
            cluster_uuid: uuid,
            nodes,
            self_node,
            partition_map,
            rebalance_status: RebalanceStatus {
                in_progress: false,
                progress: Progress::NotStarted,
                transfers_total: 0,
                transfers_completed: 0,
                source_map_revision: 0,
                target_map_revision: 0,
            },
            pending_transfers: Vec::new(),
            num_vbuckets: config.num_vbuckets,
            failover_manager: FailoverManager::new(FailoverConfig::default()),
            orchestrator_state: OrchestratorState {
                orchestrator_node: config.node_name.clone(),
                role: OrchestratorRole::Orchestrator,
                orchestrator_url: Some(orchestrator_url),
                participating_nodes: 1,
                revision: 1,
            },
            chronicle: Chronicle::new(config.node_name.clone()),
            server_groups,
            cluster_encryption: config.cluster_encryption,
        };
        assert(r@ =~= ClusterView::alone(config, uuid@, group_uuid@, now));
        r
    }

    /// A cluster of one node.
    pub fn new(config: &ServerConfig) -> (r: Self)
        ensures
            r.wf(),
            exists|group_uuid: Seq<char>|
                r@ == ClusterView::alone(
                    config,
                    r@.cluster_uuid,
                    group_uuid,
                    r@.self_node.joined_at,
                ),
    {
        let uuid = random_id();
        let group_uuid = random_id();
        let now: i128 = utc_now();
        let ghost group = group_uuid@;
        let r = Self::new_at(config, uuid, group_uuid, now);
        assert(r@ == ClusterView::alone(config, r@.cluster_uuid, group, r@.self_node.joined_at));
        r
    }

    /// Proposes a change to Chronicle, which only the leader takes up.
    fn tell(&mut self, change_type: ConfigChangeType, payload: String, now: i128)
        requires
            old(self).wf(),
            old(self)@.chronicle.next_index < u64::MAX,
        ensures
            final(self).wf(),
            final(self)@ == old(self)@.told(change_type, payload@, now),
    {
        let ghost before = self@;
        let proposed_by = self.self_node.name.clone();
        let outcome = self.chronicle.propose_at(
            ConfigProposal { change_type, payload, proposed_by },
            now,
        );
        assert(self@ =~= before.told(change_type, payload@, now));
    }

    /// The names of the nodes in service.
    fn names_in_service(&self) -> (r: Vec<String>)
        ensures
            texts(r@) == self@.service(),
    {
        let mut out: Vec<String> = Vec::new();
        let mut k: usize = 0;
        assert(texts(out@) =~= service_names(self@.nodes, 0));
        while k < self.nodes.len()
            invariant
                k <= self.nodes@.len(),
                texts(out@) == service_names(self@.nodes, k as int),
            decreases self.nodes@.len() - k,
        {
            let ghost prior = out@;
            assert(self@.nodes[k as int] == self.nodes@[k as int]@);
            if self.nodes[k].status != NodeStatus::Failed && self.nodes[k].status
                != NodeStatus::FailedOver {
                out.push(self.nodes[k].name.clone());
                assert(texts(out@) =~= texts(prior).push(self@.nodes[k as int].name));
            }
            k = k + 1;
        }
        out
    }

    /// The server group of each node.
    pub fn get_node_group_map(&self) -> (r: StrMap<String>)
        ensures
            r.wf(),
            text_map(r@) == group_map(self@.nodes, self@.nodes.len() as int),
    {
        let mut out: StrMap<String> = StrMap::new();
        let mut k: usize = 0;
        assert(text_map(out@) =~= group_map(self@.nodes, 0));
        while k < self.nodes.len()
            invariant
                k <= self.nodes@.len(),
                out.wf(),
                text_map(out@) == group_map(self@.nodes, k as int),
            decreases self.nodes@.len() - k,
        {
            let ghost prior = out@;
            assert(self@.nodes[k as int] == self.nodes@[k as int]@);
            out.insert(self.nodes[k].name.clone(), self.nodes[k].server_group.clone());
            assert(text_map(out@) =~= text_map(prior).insert(
                self@.nodes[k as int].name,
                self@.nodes[k as int].server_group,
            ));
            k = k + 1;
        }
        out
    }

    /// Whether the nodes are in more than one server group.
    fn has_several_groups(&self) -> (r: bool)
        ensures
            r == several_groups(self@.nodes),
    {
        let mut k: usize = 0;
        while k < self.nodes.len()
            invariant
                k <= self.nodes@.len(),
                forall|i: int|
                    0 <= i < k ==> (#[trigger] self@.nodes[i]).server_group
                        == self@.nodes[0].server_group,
            decreases self.nodes@.len() - k,
        {
            assert(self@.nodes[k as int].server_group == self.nodes@[k as int].server_group@);
            assert(self@.nodes[0].server_group == self.nodes@[0].server_group@);
            if !same_text(
                self.nodes[k].server_group.as_str(),
                self.nodes[0].server_group.as_str(),
            ) {
                return true;
            }
            k = k + 1;
        }
        false
    }

    /// Enters a new map and its transfers.
    fn enter_transfers(&mut self, old_rev: u64, transfers: &Vec<VBucketTransfer>)
        requires
            old(self).wf(),
        ensures
            final(self).wf(),
            final(self)@ == (ClusterView {
                rebalance_status: if transfers@.len() > 0 {
                    RebalanceStatus {
                        in_progress: true,
                        progress: Progress::NotStarted,
                        transfers_total: transfers@.len() as usize,
                        transfers_completed: 0,
                        source_map_revision: old_rev,
                        target_map_revision: old(self)@.partition_map.revision,
                    }
                } else {
                    RebalanceStatus {
                        in_progress: false,
                        progress: Progress::Done,
                        ..old(self)@.rebalance_status
                    }
                },
                pending: if transfers@.len() > 0 {
                    transfer_views(transfers@)
                } else {
                    old(self)@.pending
                },
                ..old(self)@
            }),
    {
        if transfers.len() > 0 {
            self.rebalance_status = RebalanceStatus {
                in_progress: true,
                progress: Progress::NotStarted,
                transfers_total: transfers.len(),
                transfers_completed: 0,
                source_map_revision: old_rev,
                target_map_revision: self.partition_map.revision,
            };
            self.pending_transfers = copy_transfers(transfers);
        } else {
            self.rebalance_status.in_progress = false;
            self.rebalance_status.progress = Progress::Done;
        }
    }

    /// Spreads the vBuckets over the nodes, minding server groups where there are several.
    fn do_rebalance(&mut self, names: &Vec<String>, now: i128) -> (r: Vec<VBucketTransfer>)
        requires
            old(self).wf(),
            old(self)@.room(1),
        ensures
            final(self).wf(),
            final(self)@ == old(self)@.rebalanced_over(texts(names@), now),
            transfer_views(r@) == old(self)@.partition_map.rebalance_transfers(texts(names@)),
    {
        let ghost before = self@;
        let groups = self.get_node_group_map();
        let old_rev: u64 = self.partition_map.revision;
        let several = self.has_several_groups();
        let transfers = if several {
            self.partition_map.rebalance_with_groups(names.as_slice(), &groups)
        } else {
            self.partition_map.rebalance(names.as_slice())
        };
        assert(self.partition_map@ == before.map_over(texts(names@)));
        let new_rev: u64 = self.partition_map.revision;
        self.enter_transfers(old_rev, &transfers);
        assert(transfers@.len() == transfer_views(transfers@).len());
        assert(self@ =~= before.remapped(
            before.map_over(texts(names@)),
            transfer_views(transfers@),
        ));
        if transfers.len() > 0 {
            let payload = map_payload_text(old_rev, new_rev, transfers.len(), names.as_slice());
            self.tell(ConfigChangeType::PartitionMapUpdate, payload, now);
        }
        transfers
    }

    /// Promotes the first replica of every vBucket that a failed node owned, and takes the
    /// node off all replica lists. Returns how many vBuckets it owned, and how many of them
    /// have a new owner.
    fn promote_replicas_for_node(&mut self, failed_node: &str) -> (r: (usize, usize))
        requires
            old(self).wf(),
            old(self)@.room(1),
        ensures
            final(self).wf(),
            final(self)@ == old(self)@.promoted(failed_node@),
            r.0 == owned_count(
                old(self)@.partition_map.map,
                failed_node@,
                old(self)@.partition_map.map.len() as int,
            ),
            r.1 == covered_count(
                old(self)@.partition_map.map,
                failed_node@,
                old(self)@.partition_map.map.len() as int,
            ),
    {
        let ghost before = self@;
        let ghost base = *self;
        let ghost map = before.partition_map.map;
        let mut affected: usize = 0;
        let mut promoted: usize = 0;
        let mut i: usize = 0;
        while i < self.partition_map.map.len()
            invariant
                i <= self.partition_map.map@.len(),
                before == base@,
                map == before.partition_map.map,
                self.partition_map.map@.len() == map.len(),
                base.partition_map.map@.len() == map.len(),
                self.partition_map.num_vbuckets == base.partition_map.num_vbuckets,
                self.partition_map.num_replicas == base.partition_map.num_replicas,
                self.partition_map.revision == base.partition_map.revision,
                self.cluster_name == base.cluster_name,
                self.cluster_uuid == base.cluster_uuid,
                self.nodes == base.nodes,
                self.self_node == base.self_node,
                self.rebalance_status == base.rebalance_status,
                self.pending_transfers == base.pending_transfers,
                self.num_vbuckets == base.num_vbuckets,
                self.failover_manager == base.failover_manager,
                self.orchestrator_state == base.orchestrator_state,
                self.chronicle == base.chronicle,
                self.server_groups == base.server_groups,
                self.cluster_encryption == base.cluster_encryption,
                promoted <= affected <= i,
                affected == owned_count(map, failed_node@, i as int),
                promoted == covered_count(map, failed_node@, i as int),
                forall|k: int|
                    0 <= k < i ==> #[trigger] self.partition_map.map@[k]@ == promoted_entry(
                        map[k],
                        failed_node@,
                    ),
                forall|k: int|
                    i <= k < map.len() ==> #[trigger] self.partition_map.map@[k]@ == map[k],
            decreases self.partition_map.map@.len() - i,
        {
            assert(self.partition_map.map@[i as int]@ == map[i as int]);
            let owned = same_text(self.partition_map.map[i].active_node.as_str(), failed_node);
            let covered = owned && self.partition_map.map[i].replica_nodes.len() > 0;
            let entry = &mut self.partition_map.map[i];
            let ghost entry0 = entry@;
            if owned {
                affected = affected + 1;
            }
            if covered {
                let replica = entry.replica_nodes[0].clone();
                assert(replica@ == entry0.replicas[0]);
                let rest = drop_name(&entry.replica_nodes, replica.as_str());
                entry.replica_nodes = drop_name(&rest, failed_node);
                entry.active_node = replica;
                promoted = promoted + 1;
            } else {
                entry.replica_nodes = drop_name(&entry.replica_nodes, failed_node);
            }
            assert(entry@ =~= promoted_entry(entry0, failed_node@));
            i = i + 1;
        }
        if promoted > 0 {
            self.partition_map.revision = self.partition_map.revision + 1;
        }
        assert(self@.partition_map.map =~= before.promoted(failed_node@).partition_map.map);
        assert(self@ =~= before.promoted(failed_node@));
        (affected, promoted)
    }

    /// Sets the status of a node, if there is such a node.
    fn set_status(&mut self, name: &str, status: NodeStatus)
        requires
            old(self).wf(),
        ensures
            final(self).wf(),
            final(self)@ == old(self)@.with_status(name@, status),
    {
        let ghost before = self@;
        match self.find_node(name) {
            Some(i) => {
                let ghost node0 = self.nodes@[i as int]@;
                let node = &mut self.nodes[i];
                node.status = status;
                assert(node_views(self.nodes@) =~= before.nodes.update(
                    i as int,
                    node0.with_status(status),
                ));
                assert(node_names(self@.nodes) =~= node_names(before.nodes));
            },
            None => {},
        }
    }

    /// Elects the orchestrator among the healthy nodes and makes Chronicle follow.
    pub fn evaluate_orchestrator(&mut self)
        requires
            old(self).wf(),
            old(self)@.orchestrator.revision < u64::MAX,
            old(self)@.chronicle.term < u64::MAX,
        ensures
            final(self).wf(),
            final(self)@ == old(self)@.orchestrated(),
    {
        let ghost before = self@;
        let mut voters: Vec<(String, String)> = Vec::new();
        let mut k: usize = 0;
        while k < self.nodes.len()
            invariant
                k <= self.nodes@.len(),
                self@ == before,
                self.wf(),
                before == old(self)@,
                voters@.len() == electorate(before.nodes, k as int).len(),
                forall|i: int|
                    0 <= i < voters@.len() ==> (#[trigger] voters@[i]).0@ == electorate(
                        before.nodes,
                        k as int,
                    )[i].name && voters@[i].1@ == url_of(
                        electorate(before.nodes, k as int)[i].hostname,
                        electorate(before.nodes, k as int)[i].port,
                    ),
            decreases self.nodes@.len() - k,
        {
            assert(before.nodes[k as int] == self.nodes@[k as int]@);
            if self.nodes[k].status == NodeStatus::Healthy || self.nodes[k].status
                == NodeStatus::Warmup {
                voters.push((self.nodes[k].name.clone(), self.nodes[k].base_url()));
            }
            k = k + 1;
        }
        let ghost all = electorate(before.nodes, before.nodes.len() as int);
        assert(names_of(voters@) =~= node_names(all));
        match elect_orchestrator(voters.as_slice()) {
            Some((leader_name, leader_url)) => {
                let mine = same_text(leader_name.as_str(), self.self_node.name.as_str());
                let changed = !same_text(
                    leader_name.as_str(),
                    self.orchestrator_state.orchestrator_node.as_str(),
                );
                self.orchestrator_state.orchestrator_node = leader_name;
                self.orchestrator_state.orchestrator_url = Some(leader_url);
                self.orchestrator_state.participating_nodes = voters.len();
                self.orchestrator_state.role = if mine {
                    OrchestratorRole::Orchestrator
                } else {
                    OrchestratorRole::Follower
                };
                self.chronicle.set_leader(mine);
                self.chronicle.update_cluster_size(voters.len());
                if changed {
                    self.orchestrator_state.revision = self.orchestrator_state.revision + 1;
                    self.chronicle.new_term();
                }
                assert(self@ =~= before.orchestrated());
            },
            None => {},
        }
    }

    /// Rebalances over the nodes in service and elects the orchestrator.
    fn resettle(&mut self, now: i128) -> (r: Vec<VBucketTransfer>)
        requires
            old(self).wf(),
            old(self)@.room(1),
        ensures
            final(self).wf(),
            final(self)@ == old(self)@.rebalanced_over(old(self)@.service(), now).orchestrated(),
            transfer_views(r@) == old(self)@.partition_map.rebalance_transfers(
                old(self)@.service(),
            ),
    {
        let names = self.names_in_service();
        let transfers = self.do_rebalance(&names, now);
        self.evaluate_orchestrator();
        transfers
    }

    /// Tells Chronicle how many nodes are in service.
    fn resize(&mut self)
        requires
            old(self).wf(),
        ensures
            final(self).wf(),
            final(self)@ == old(self)@.sized(),
    {
        let names = self.names_in_service();
        self.chronicle.update_cluster_size(names.len());
        assert(texts(names@).len() == names@.len());
        assert(self@ =~= old(self)@.sized());
    }

    /// Takes a node off the list and forgets its failover state.
    fn take_off(&mut self, place: usize, name: &str)
        requires
            old(self).wf(),
            old(self)@.node_place(name@) == Some(place as int),
            place < old(self)@.nodes.len(),
        ensures
            final(self).wf(),
            final(self)@ == (ClusterView {
                nodes: old(self)@.nodes.remove(place as int),
                failover: old(self)@.failover.recovered(name@).timer_cleared(name@),
                ..old(self)@
            }),
    {
        let ghost before = self@;
        let gone = self.nodes.remove(place);
        proof {
            assert(node_views(self.nodes@) =~= before.nodes.remove(place as int));
            assert(node_names(self@.nodes) =~= node_names(before.nodes).remove(place as int));
        }
        let was_failed_over = self.failover_manager.recover_node(name);
        self.failover_manager.clear_failure_timer(name);
    }

    /// Adds a node at a given time and rebalances.
    pub fn add_node_at(&mut self, node: ClusterNode, now: i128) -> (r: Result<Vec<VBucketTransfer>>)
        requires
            old(self).wf(),
            old(self)@.room(3),
        ensures
            final(self).wf(),
            match r {
                Ok(transfers) => {
                    let s = old(self)@.joined(node@, now);
                    &&& !old(self)@.has_node(node@.name)
                    &&& final(self)@ == old(self)@.node_added(node@, now)
                    &&& transfer_views(transfers@) == s.partition_map.rebalance_transfers(
                        s.service(),
                    )
                },
                Err(e) => {
                    &&& old(self)@.has_node(node@.name)
                    &&& final(self)@ == old(self)@
                    &&& match e {
                        NosqlError::NodeAlreadyExists(n) => n@ == node@.name,
                        _ => false,
                    }
                },
            },
    {
        let ghost before = self@;
        if self.find_node(node.name.as_str()).is_some() {
            return Err(NosqlError::NodeAlreadyExists(node.name));
        }
        let name = node.name.clone();
        self.nodes.push(node);
        proof {
            assert(node_views(self.nodes@) =~= before.nodes.push(node@));
            assert(node_names(self@.nodes) =~= node_names(before.nodes).push(node@.name));
        }
        self.resize();
        let payload = node_payload_text(name.as_str());
        self.tell(ConfigChangeType::NodeAdd, payload, now);
        assert(self@ == before.joined(node@, now));
        Ok(self.resettle(now))
    }

    /// Adds a node and rebalances.
    pub fn add_node(&mut self, node: ClusterNode) -> (r: Result<Vec<VBucketTransfer>>)
        requires
            old(self).wf(),
            old(self)@.room(3),
        ensures
            final(self).wf(),
            r is Ok == !old(self)@.has_node(node@.name),
            match r {
                Ok(transfers) => exists|now: i128|
                    final(self)@ == #[trigger] old(self)@.node_added(node@, now)
                        && transfer_views(transfers@) == old(self)@.joined(
                        node@,
                        now,
                    ).partition_map.rebalance_transfers(old(self)@.joined(node@, now).service()),
                Err(e) => final(self)@ == old(self)@ && match e {
                    NosqlError::NodeAlreadyExists(n) => n@ == node@.name,
                    _ => false,
                },
            },
    {
        let now: i128 = utc_now();
        self.add_node_at(node, now)
    }

    /// Removes a node at a given time and rebalances.
    pub fn remove_node_at(&mut self, name: &str, now: i128) -> (r: Result<Vec<VBucketTransfer>>)
        requires
            old(self).wf(),
            old(self)@.room(3),
        ensures
            final(self).wf(),
            match r {
                Ok(transfers) => {
                    let s = old(self)@.left(name@, now);
                    &&& name@ != old(self)@.self_node.name
                    &&& old(self)@.has_node(name@)
                    &&& final(self)@ == old(self)@.node_removed(name@, now)
                    &&& transfer_views(transfers@) == s.partition_map.rebalance_transfers(
                        s.service(),
                    )
                },
                Err(e) => {
                    &&& final(self)@ == old(self)@
                    &&& if name@ == old(self)@.self_node.name {
                        invalid(e, "Cannot remove self node"@)
                    } else {
                        !old(self)@.has_node(name@) && no_such_node(e, name@)
                    }
                },
            },
    {
        let ghost before = self@;
        if same_text(name, self.self_node.name.as_str()) {
            return Err(NosqlError::InvalidRequest("Cannot remove self node".to_owned()));
        }
        let place: usize = match self.find_node(name) {
            Some(i) => i,
            None => {
                return Err(NosqlError::NodeNotFound(name.to_owned()));
            },
        };
        self.take_off(place, name);
        self.resize();
        let payload = node_payload_text(name);
        self.tell(ConfigChangeType::NodeRemove, payload, now);
        assert(self@ == before.left(name@, now));
        Ok(self.resettle(now))
    }

    /// Removes a node and rebalances.
    pub fn remove_node(&mut self, name: &str) -> (r: Result<Vec<VBucketTransfer>>)
        requires
            old(self).wf(),
            old(self)@.room(3),
        ensures
            final(self).wf(),
            r is Ok == (name@ != old(self)@.self_node.name && old(self)@.has_node(name@)),
            match r {
                Ok(transfers) => exists|now: i128|
                    final(self)@ == #[trigger] old(self)@.node_removed(name@, now)
                        && transfer_views(transfers@) == old(self)@.left(
                        name@,
                        now,
                    ).partition_map.rebalance_transfers(old(self)@.left(name@, now).service()),
                Err(e) => final(self)@ == old(self)@ && if name@ == old(self)@.self_node.name {
                    invalid(e, "Cannot remove self node"@)
                } else {
                    no_such_node(e, name@)
                },
            },
    {
        let now: i128 = utc_now();
        self.remove_node_at(name, now)
    }

    /// Fails a node over: its replicas are promoted, and the rest of the cluster takes over.
    pub fn execute_failover_at(
        &mut self,
        node_name: &str,
        failover_type: FailoverType,
        reason: String,
        id: String,
        now: i128,
    ) -> (r: FailoverEvent)
        requires
            old(self).wf(),
            old(self)@.room(2),
            failover_type == FailoverType::Automatic ==> old(self)@.failover.auto_failover_count
                < u32::MAX,
        ensures
            final(self).wf(),
            r@ == old(self)@.failover_event(node_name@, failover_type, reason@, id@, now),
            final(self)@ == old(self)@.failed_over(
                node_name@,
                failover_type,
                reason@,
                id@,
                now,
            ),
    {
        let ghost before = self@;
        self.set_status(node_name, NodeStatus::FailedOver);
        let (affected, promoted) = self.promote_replicas_for_node(node_name);
        let ghost cut = self@;
        assert(cut == before.cut_off(node_name@));
        proof {
            lemma_has_node(before, node_name@);
        }
        let names = self.names_in_service();
        assert(texts(names@).len() == names@.len());
        let triggered = names.len() > 0;
        if triggered {
            let transfers = self.do_rebalance(&names, now);
        }
        let ghost spread = self@;
        let ghost reason_text = reason@;
        let event = self.failover_manager.record_failover_at(
            node_name,
            failover_type,
            reason,
            affected,
            promoted,
            triggered,
            id,
            now,
        );
        proof {
            lemma_counts_bounded(
                before.partition_map.map,
                node_name@,
                before.partition_map.map.len() as int,
            );
        }
        assert(event@ == before.failover_event(node_name@, failover_type, reason_text, id@, now));
        assert(self@ =~= (ClusterView {
            failover: spread.failover.recorded(node_name@, event@),
            ..spread
        }));
        let payload = failover_payload_text(node_name, failover_type, affected, promoted);
        self.tell(ConfigChangeType::NodeFailover, payload, now);
        self.evaluate_orchestrator();
        event
    }
}

impl ClusterView {
    /// Whether an error is the one that refuses a hard failover.
    pub open spec fn refuses_hard(self, name: Seq<char>, e: NosqlError) -> bool {
        if name == self.self_node.name {
            invalid(e, "Cannot failover self node"@)
        } else {
            !self.has_node(name) && no_such_node(e, name)
        }
    }

    /// Whether an error is the one that refuses a graceful failover.
    pub open spec fn refuses_graceful(self, name: Seq<char>, e: NosqlError) -> bool {
        if name == self.self_node.name || !self.has_node(name) {
            self.refuses_hard(name, e)
        } else {
            self.failover.is_failed_over(name) && invalid(
                e,
                "Node '"@ + name + "' is already in failover state"@,
            )
        }
    }

    /// Whether an error is the one that refuses to take a node back.
    pub open spec fn refuses_recovery(self, name: Seq<char>, e: NosqlError) -> bool {
        if !self.has_node(name) {
            no_such_node(e, name)
        } else {
            let status = self.nodes[self.node_place(name)->0].status;
            in_service(status) && invalid(
                e,
                "Node '"@ + name + "' is not in failed/failedover state (current: "@ + status_name(
                    status,
                ) + ")"@,
            )
        }
    }

    /// After a server group was created.
    pub open spec fn group_created(self, name: Seq<char>, uuid: Seq<char>, now: i128) -> Self {
        ClusterView {
            groups: self.groups.push(GroupView { name, uuid, nodes: Seq::empty() }),
            ..self
        }.told(ConfigChangeType::ServerGroupAdd, group_payload(name), now)
    }

    pub open spec fn has_group(self, name: Seq<char>) -> bool {
        group_names(self.groups).contains(name)
    }

    /// The place of a server group.
    pub open spec fn group_place(self, name: Seq<char>) -> Option<int> {
        place_of(group_names(self.groups), name, 0)
    }

    /// After a node was moved to a server group.
    pub open spec fn regrouped(self, node: Seq<char>, group: Seq<char>) -> Self {
        let g = self.group_place(group)->0;
        let n = self.node_place(node)->0;
        ClusterView {
            groups: Seq::new(
                self.groups.len(),
                |i: int|
                    {
                        let rest = without_name(self.groups[i].nodes, node);
                        GroupView {
                            nodes: if i == g {
                                rest.push(node)
                            } else {
                                rest
                            },
                            ..self.groups[i]
                        }
                    },
            ),
            nodes: self.nodes.update(n, NodeView { server_group: group, ..self.nodes[n] }),
            ..self
        }
    }

    /// A cluster of one node, which leads it and owns every vBucket.
    pub open spec fn alone(
        config: &ServerConfig,
        uuid: Seq<char>,
        group_uuid: Seq<char>,
        now: i128,
    ) -> Self {
        let node = NodeView::fresh(config.node_name@, config.host@, config.port, now);
        ClusterView {
            cluster_name: "oxidedb-cluster"@,
            cluster_uuid: uuid,
            nodes: seq![node],
            self_node: node,
            partition_map: PartitionMapView::fresh(
                config.num_vbuckets,
                1,
                seq![config.node_name@],
            ),
            rebalance_status: RebalanceStatus {
                in_progress: false,
                progress: Progress::NotStarted,
                transfers_total: 0,
                transfers_completed: 0,
                source_map_revision: 0,
                target_map_revision: 0,
            },
            pending: Seq::empty(),
            num_vbuckets: config.num_vbuckets,
            failover: FailoverView::fresh(FailoverConfig::standard()),
            orchestrator: OrchestratorView {
                node: config.node_name@,
                role: OrchestratorRole::Orchestrator,
                url: Some(url_of(config.host@, config.port)),
                participating_nodes: 1,
                revision: 1,
            },
            chronicle: ChronicleView::fresh(config.node_name@),
            groups: seq![
                GroupView {
                    name: "Group 1"@,
                    uuid: group_uuid,
                    nodes: seq![config.node_name@],
                },
            ],
            cluster_encryption: config.cluster_encryption,
        }
    }
}

proof fn lemma_failover_room(
    v: ClusterView,
    name: Seq<char>,
    failover_type: FailoverType,
    reason: Seq<char>,
    id: Seq<char>,
    now: i128,
    n: int,
)
    requires
        v.room(n),
        n >= 2,
    ensures
        v.failed_over(name, failover_type, reason, id, now).room(n - 2),
        v.failed_over(name, failover_type, reason, id, now).failover == v.failover.recorded(
            name,
            v.failover_event(name, failover_type, reason, id, now),
        ),
{
    let cut = v.cut_off(name);
    assert(cut.room(n - 1));
    assert(cut.failover == v.failover);
    let spread = cut.rebalanced_over(cut.service(), now);
    assert(spread.room(n - 2) && spread.chronicle.next_index + n - 1 <= u64::MAX
        && spread.chronicle.term == v.chronicle.term && spread.orchestrator == v.orchestrator
        && spread.failover == v.failover);
}

impl ClusterManager {
    /// Why a node cannot be failed over by an operator, if it cannot.
    fn refuse_failover(&self, node_name: &str) -> (r: Option<NosqlError>)
        ensures
            match r {
                Some(e) => self@.refuses_hard(node_name@, e),
                None => node_name@ != self@.self_node.name && self@.has_node(node_name@),
            },
    {
        if same_text(node_name, self.self_node.name.as_str()) {
            return Some(NosqlError::InvalidRequest("Cannot failover self node".to_owned()));
        }
        if self.find_node(node_name).is_none() {
            return Some(NosqlError::NodeNotFound(node_name.to_owned()));
        }
        None
    }

    /// Graceful failover by an operator, under an id and at a time.
    pub fn graceful_failover_at(&mut self, node_name: &str, id: String, now: i128) -> (r: Result<
        FailoverEvent,
    >)
        requires
            old(self).wf(),
            old(self)@.room(2),
        ensures
            final(self).wf(),
            match r {
                Ok(event) => {
                    &&& node_name@ != old(self)@.self_node.name
                    &&& old(self)@.has_node(node_name@)
                    &&& !old(self)@.failover.is_failed_over(node_name@)
                    &&& event@ == old(self)@.failover_event(
                        node_name@,
                        FailoverType::Graceful,
                        "Graceful failover initiated by operator"@,
                        id@,
                        now,
                    )
                    &&& final(self)@ == old(self)@.failed_over(
                        node_name@,
                        FailoverType::Graceful,
                        "Graceful failover initiated by operator"@,
                        id@,
                        now,
                    )
                },
                Err(e) => {
                    &&& final(self)@ == old(self)@
                    &&& old(self)@.refuses_graceful(node_name@, e)
                },
            },
    {
        match self.refuse_failover(node_name) {
            Some(e) => {
                return Err(e);
            },
            None => {},
        }
        if self.failover_manager.is_failed_over(node_name) {
            let mut msg = "Node '".to_owned();
            msg.append(node_name);
            msg.append("' is already in failover state");
            return Err(NosqlError::InvalidRequest(msg));
        }
        let reason = "Graceful failover initiated by operator".to_owned();
        Ok(self.execute_failover_at(node_name, FailoverType::Graceful, reason, id, now))
    }

    /// Graceful failover by an operator.
    pub fn graceful_failover(&mut self, node_name: &str) -> (r: Result<FailoverEvent>)
        requires
            old(self).wf(),
            old(self)@.room(2),
        ensures
            final(self).wf(),
            r is Ok == (node_name@ != old(self)@.self_node.name && old(self)@.has_node(node_name@)
                && !old(self)@.failover.is_failed_over(node_name@)),
            match r {
                Ok(event) => final(self)@ == old(self)@.failed_over(
                    node_name@,
                    FailoverType::Graceful,
                    "Graceful failover initiated by operator"@,
                    event@.id,
                    event@.timestamp,
                ) && event@ == old(self)@.failover_event(
                    node_name@,
                    FailoverType::Graceful,
                    "Graceful failover initiated by operator"@,
                    event@.id,
                    event@.timestamp,
                ),
                Err(e) => final(self)@ == old(self)@ && old(self)@.refuses_graceful(node_name@, e),
            },
    {
        let id = random_id();
        let now: i128 = utc_now();
        self.graceful_failover_at(node_name, id, now)
    }

    /// Hard failover by an operator, under an id and at a time.
    pub fn hard_failover_at(&mut self, node_name: &str, id: String, now: i128) -> (r: Result<
        FailoverEvent,
    >)
        requires
            old(self).wf(),
            old(self)@.room(2),
        ensures
            final(self).wf(),
            match r {
                Ok(event) => {
                    &&& node_name@ != old(self)@.self_node.name
                    &&& old(self)@.has_node(node_name@)
                    &&& event@ == old(self)@.failover_event(
                        node_name@,
                        FailoverType::Hard,
                        "Hard failover initiated by operator"@,
                        id@,
                        now,
                    )
                    &&& final(self)@ == old(self)@.failed_over(
                        node_name@,
                        FailoverType::Hard,
                        "Hard failover initiated by operator"@,
                        id@,
                        now,
                    )
                },
                Err(e) => {
                    &&& final(self)@ == old(self)@
                    &&& old(self)@.refuses_hard(node_name@, e)
                },
            },
    {
        match self.refuse_failover(node_name) {
            Some(e) => {
                return Err(e);
            },
            None => {},
        }
        let reason = "Hard failover initiated by operator".to_owned();
        Ok(self.execute_failover_at(node_name, FailoverType::Hard, reason, id, now))
    }

    /// Hard failover by an operator.
    pub fn hard_failover(&mut self, node_name: &str) -> (r: Result<FailoverEvent>)
        requires
            old(self).wf(),
            old(self)@.room(2),
        ensures
            final(self).wf(),
            r is Ok == (node_name@ != old(self)@.self_node.name && old(self)@.has_node(
                node_name@,
            )),
            match r {
                Ok(event) => final(self)@ == old(self)@.failed_over(
                    node_name@,
                    FailoverType::Hard,
                    "Hard failover initiated by operator"@,
                    event@.id,
                    event@.timestamp,
                ) && event@ == old(self)@.failover_event(
                    node_name@,
                    FailoverType::Hard,
                    "Hard failover initiated by operator"@,
                    event@.id,
                    event@.timestamp,
                ),
                Err(e) => final(self)@ == old(self)@ && old(self)@.refuses_hard(node_name@, e),
            },
    {
        let id = random_id();
        let now: i128 = utc_now();
        self.hard_failover_at(node_name, id, now)
    }

    /// Takes a failed node back at a given time and rebalances.
    pub fn recover_node_at(&mut self, node_name: &str, now: i128) -> (r: Result<
        Vec<VBucketTransfer>,
    >)
        requires
            old(self).wf(),
            old(self)@.room(1),
        ensures
            final(self).wf(),
            match r {
                Ok(transfers) => {
                    let i = old(self)@.node_place(node_name@)->0;
                    let s = old(self)@.revived(node_name@, now);
                    &&& old(self)@.has_node(node_name@)
                    &&& !in_service(old(self)@.nodes[i].status)
                    &&& final(self)@ == old(self)@.node_recovered(node_name@, now)
                    &&& transfer_views(transfers@) == s.partition_map.rebalance_transfers(
                        s.service(),
                    )
                },
                Err(e) => final(self)@ == old(self)@ && old(self)@.refuses_recovery(node_name@, e),
            },
    {
        let ghost before = self@;
        let place: usize = match self.find_node(node_name) {
            Some(i) => i,
            None => {
                return Err(NosqlError::NodeNotFound(node_name.to_owned()));
            },
        };
        assert(before.nodes[place as int] == self.nodes@[place as int]@);
        if self.nodes[place].status != NodeStatus::FailedOver && self.nodes[place].status
            != NodeStatus::Failed {
            let mut msg = "Node '".to_owned();
            msg.append(node_name);
            msg.append("' is not in failed/failedover state (current: ");
            msg.append(status_text(self.nodes[place].status));
            msg.append(")");
            return Err(NosqlError::InvalidRequest(msg));
        }
        let node = &mut self.nodes[place];
        node.status = NodeStatus::Healthy;
        node.last_heartbeat = now;
        proof {
            assert(node_views(self.nodes@) =~= before.revived(node_name@, now).nodes);
            assert(node_names(self@.nodes) =~= node_names(before.nodes));
        }
        let was_failed_over = self.failover_manager.recover_node(node_name);
        assert(self@ =~= before.revived(node_name@, now));
        Ok(self.resettle(now))
    }

    /// Takes a failed node back and rebalances.
    pub fn recover_node(&mut self, node_name: &str) -> (r: Result<Vec<VBucketTransfer>>)
        requires
            old(self).wf(),
            old(self)@.room(1),
        ensures
            final(self).wf(),
            r is Ok == (old(self)@.has_node(node_name@) && !in_service(
                old(self)@.nodes[old(self)@.node_place(node_name@)->0].status,
            )),
            match r {
                Ok(transfers) => exists|now: i128|
                    final(self)@ == #[trigger] old(self)@.node_recovered(node_name@, now)
                        && transfer_views(transfers@) == old(self)@.revived(
                        node_name@,
                        now,
                    ).partition_map.rebalance_transfers(
                        old(self)@.revived(node_name@, now).service(),
                    ),
                Err(e) => final(self)@ == old(self)@ && old(self)@.refuses_recovery(node_name@, e),
            },
    {
        let now: i128 = utc_now();
        self.recover_node_at(node_name, now)
    }

    /// Rebalances over the nodes in service at a given time.
    pub fn trigger_rebalance_at(&mut self, now: i128) -> (r: Vec<VBucketTransfer>)
        requires
            old(self).wf(),
            old(self)@.room(1),
        ensures
            final(self).wf(),
            final(self)@ == old(self)@.rebalanced_over(old(self)@.service(), now),
            transfer_views(r@) == old(self)@.partition_map.rebalance_transfers(
                old(self)@.service(),
            ),
    {
        let names = self.names_in_service();
        self.do_rebalance(&names, now)
    }

    /// Rebalances over the nodes in service.
    pub fn trigger_rebalance(&mut self) -> (r: Vec<VBucketTransfer>)
        requires
            old(self).wf(),
            old(self)@.room(1),
        ensures
            final(self).wf(),
            exists|now: i128|
                final(self)@ == #[trigger] old(self)@.rebalanced_over(old(self)@.service(), now),
            transfer_views(r@) == old(self)@.partition_map.rebalance_transfers(
                old(self)@.service(),
            ),
    {
        let now: i128 = utc_now();
        self.trigger_rebalance_at(now)
    }

    /// Rebalances over the nodes in service, always minding server groups.
    pub fn rebalance_with_groups(&mut self) -> (r: Vec<VBucketTransfer>)
        requires
            old(self).wf(),
            old(self)@.room(1),
        ensures
            final(self).wf(),
            final(self)@ == old(self)@.remapped(
                old(self)@.partition_map.group_rebalanced(
                    old(self)@.service(),
                    group_map(old(self)@.nodes, old(self)@.nodes.len() as int),
                ),
                old(self)@.partition_map.rebalance_transfers(old(self)@.service()),
            ),
            transfer_views(r@) == old(self)@.partition_map.rebalance_transfers(
                old(self)@.service(),
            ),
    {
        let names = self.names_in_service();
        let groups = self.get_node_group_map();
        let old_rev: u64 = self.partition_map.revision;
        let transfers = self.partition_map.rebalance_with_groups(names.as_slice(), &groups);
        self.enter_transfers(old_rev, &transfers);
        assert(transfers@.len() == transfer_views(transfers@).len());
        transfers
    }

    /// Counts the finished transfers.
    fn recount(&mut self, with_failed: bool)
        requires
            old(self).wf(),
        ensures
            final(self).wf(),
            final(self)@ == old(self)@.counted(with_failed),
    {
        let ghost pending = self@.pending;
        let total: usize = self.pending_transfers.len();
        let mut completed: usize = 0;
        let mut k: usize = 0;
        while k < total
            invariant
                k <= total,
                total == self.pending_transfers@.len(),
                pending == transfer_views(self.pending_transfers@),
                completed <= k,
                completed == finished_count(pending, with_failed, k as int),
            decreases total - k,
        {
            assert(pending[k as int] == self.pending_transfers@[k as int]@);
            if self.pending_transfers[k].status == TransferStatus::Completed || (with_failed
                && self.pending_transfers[k].status == TransferStatus::Failed) {
                completed = completed + 1;
            }
            k = k + 1;
        }
        self.rebalance_status.transfers_completed = completed;
        if completed >= total {
            self.rebalance_status.in_progress = false;
            self.rebalance_status.progress = Progress::Done;
        } else {
            self.rebalance_status.progress = Progress::Partial { completed, total };
        }
        assert(self@ =~= old(self)@.counted(with_failed));
    }

    /// Marks the transfer of a vBucket as completed.
    pub fn complete_transfer(&mut self, vbucket_id: u16)
        requires
            old(self).wf(),
        ensures
            final(self).wf(),
            final(self)@ == old(self)@.transfer_completed(vbucket_id),
    {
        let ghost before = self@;
        let mut i: usize = 0;
        while i < self.pending_transfers.len() && self.pending_transfers[i].vbucket_id
            != vbucket_id
            invariant
                i <= self.pending_transfers@.len(),
                self@ == before,
                before == old(self)@,
                self.wf(),
                transfer_place(before.pending, vbucket_id, 0) == transfer_place(
                    before.pending,
                    vbucket_id,
                    i as int,
                ),
            decreases self.pending_transfers@.len() - i,
        {
            assert(before.pending[i as int] == self.pending_transfers@[i as int]@);
            i = i + 1;
        }
        if i < self.pending_transfers.len() {
            assert(before.pending[i as int] == self.pending_transfers@[i as int]@);
            let t = &mut self.pending_transfers[i];
            t.status = TransferStatus::Completed;
            assert(transfer_views(self.pending_transfers@) =~= before.pending.update(
                i as int,
                TransferView { status: TransferStatus::Completed, ..before.pending[i as int] },
            ));
        }
        self.recount(false);
    }

    /// Marks the waiting transfer of a vBucket as failed.
    pub fn fail_transfer(&mut self, vbucket_id: u16)
        requires
            old(self).wf(),
        ensures
            final(self).wf(),
            final(self)@ == old(self)@.transfer_failed(vbucket_id),
    {
        let ghost before = self@;
        let mut i: usize = 0;
        while i < self.pending_transfers.len() && !(self.pending_transfers[i].vbucket_id
            == vbucket_id && self.pending_transfers[i].status == TransferStatus::Pending)
            invariant
                i <= self.pending_transfers@.len(),
                self@ == before,
                before == old(self)@,
                self.wf(),
                waiting_place(before.pending, vbucket_id, 0) == waiting_place(
                    before.pending,
                    vbucket_id,
                    i as int,
                ),
            decreases self.pending_transfers@.len() - i,
        {
            assert(before.pending[i as int] == self.pending_transfers@[i as int]@);
            i = i + 1;
        }
        if i < self.pending_transfers.len() {
            assert(before.pending[i as int] == self.pending_transfers@[i as int]@);
            let t = &mut self.pending_transfers[i];
            t.status = TransferStatus::Failed;
            assert(transfer_views(self.pending_transfers@) =~= before.pending.update(
                i as int,
                TransferView { status: TransferStatus::Failed, ..before.pending[i as int] },
            ));
        }
        self.recount(true);
    }

    /// Records a sign of life of a node, without touching its failure timer.
    pub fn node_alive_at(&mut self, node_name: &str, now: i128) -> (r: bool)
        requires
            old(self).wf(),
        ensures
            final(self).wf(),
            r == old(self)@.has_node(node_name@),
            final(self)@ == old(self)@.heard(node_name@, now),
    {
        let ghost before = self@;
        match self.find_node(node_name) {
            Some(i) => {
                assert(before.nodes[i as int] == self.nodes@[i as int]@);
                let unhealthy = self.nodes[i].status == NodeStatus::Unhealthy;
                let node = &mut self.nodes[i];
                node.last_heartbeat = now;
                if unhealthy {
                    node.status = NodeStatus::Healthy;
                }
                assert(node_views(self.nodes@) =~= before.heard(node_name@, now).nodes);
                assert(node_names(self@.nodes) =~= node_names(before.nodes));
                true
            },
            None => false,
        }
    }

    /// Records a heartbeat of a node at a given time.
    pub fn heartbeat_at(&mut self, node_name: &str, now: i128) -> (r: Result<()>)
        requires
            old(self).wf(),
        ensures
            final(self).wf(),
            match r {
                Ok(_) => {
                    let s = old(self)@.heard(node_name@, now);
                    &&& old(self)@.has_node(node_name@)
                    &&& final(self)@ == (ClusterView {
                        failover: s.failover.timer_cleared(node_name@),
                        ..s
                    })
                },
                Err(e) => !old(self)@.has_node(node_name@) && no_such_node(e, node_name@)
                    && final(self)@ == old(self)@,
            },
    {
        proof {
            lemma_has_node(self@, node_name@);
        }
        if !self.node_alive_at(node_name, now) {
            return Err(NosqlError::NodeNotFound(node_name.to_owned()));
        }
        self.failover_manager.clear_failure_timer(node_name);
        Ok(())
    }

    /// Records a heartbeat of a node.
    pub fn heartbeat(&mut self, node_name: &str) -> (r: Result<()>)
        requires
            old(self).wf(),
        ensures
            final(self).wf(),
            match r {
                Ok(_) => old(self)@.has_node(node_name@) && exists|now: i128|
                    final(self)@ == (ClusterView {
                        failover: old(self)@.failover.timer_cleared(node_name@),
                        ..#[trigger] old(self)@.heard(node_name@, now)
                    }),
                Err(e) => !old(self)@.has_node(node_name@) && no_such_node(e, node_name@)
                    && final(self)@ == old(self)@,
            },
    {
        let now: i128 = utc_now();
        let r = self.heartbeat_at(node_name, now);
        assert(old(self)@.heard(node_name@, now).failover == old(self)@.failover);
        r
    }

    // ---- Queries ----

    /// The active node of a vBucket.
    pub fn get_active_node_for_vbucket(&self, vbucket_id: u16) -> (r: Option<String>)
        ensures
            match r {
                Some(n) => vbucket_id < self@.partition_map.map.len() && n@
                    == self@.partition_map.map[vbucket_id as int].active,
                None => vbucket_id >= self@.partition_map.map.len(),
            },
    {
        match self.partition_map.get_active_node(vbucket_id) {
            Some(s) => Some(s.to_owned()),
            None => None,
        }
    }

    /// Whether this node owns a vBucket.
    pub fn is_vbucket_local(&self, vbucket_id: u16) -> (r: bool)
        ensures
            r == (vbucket_id < self@.partition_map.map.len()
                && self@.partition_map.map[vbucket_id as int].active == self@.self_node.name),
    {
        self.partition_map.is_active_on(vbucket_id, self.self_node.name.as_str())
    }

    /// Whether there is at most one node.
    pub fn is_single_node(&self) -> (r: bool)
        ensures
            r == (self@.nodes.len() <= 1),
    {
        self.nodes.len() <= 1
    }

    /// The address of a node.
    pub fn get_node_url(&self, node_name: &str) -> (r: Option<String>)
        ensures
            match r {
                Some(url) => {
                    let n = self@.nodes[self@.node_place(node_name@)->0];
                    self@.has_node(node_name@) && url@ == url_of(n.hostname, n.port)
                },
                None => !self@.has_node(node_name@),
            },
    {
        match self.find_node(node_name) {
            Some(i) => {
                assert(self@.nodes[i as int] == self.nodes@[i as int]@);
                Some(self.nodes[i].base_url())
            },
            None => None,
        }
    }

    /// The partition map.
    pub fn get_partition_map(&self) -> (r: PartitionMap)
        ensures
            r@ == self@.partition_map,
            r.wf() == self.partition_map.wf(),
    {
        self.partition_map.copy()
    }

    /// The summary of each node.
    pub fn get_node_partition_info(&self) -> (r: Vec<NodePartitionInfo>)
        requires
            self.wf(),
        ensures
            r@.len() == self@.nodes.len(),
            forall|i: int|
                0 <= i < r@.len() ==> self@.partition_map.describes(
                    #[trigger] r@[i],
                    self@.nodes[i].name,
                ),
    {
        let mut names: Vec<String> = Vec::new();
        let mut k: usize = 0;
        while k < self.nodes.len()
            invariant
                k <= self.nodes@.len(),
                names@.len() == k,
                forall|i: int| 0 <= i < k ==> (#[trigger] names@[i])@ == self@.nodes[i].name,
            decreases self.nodes@.len() - k,
        {
            names.push(self.nodes[k].name.clone());
            k = k + 1;
        }
        proof {
            assert(texts(names@) =~= node_names(self@.nodes));
            lemma_all_mentioned_once(node_names(self@.nodes));
        }
        self.partition_map.get_node_partition_info(names.as_slice())
    }

    pub fn get_rebalance_status(&self) -> (r: RebalanceStatus)
        ensures
            r == self@.rebalance_status,
    {
        self.rebalance_status
    }

    pub fn get_pending_transfers(&self) -> (r: Vec<VBucketTransfer>)
        ensures
            transfer_views(r@) == self@.pending,
    {
        copy_transfers(&self.pending_transfers)
    }

    pub fn list_nodes(&self) -> (r: Vec<ClusterNode>)
        ensures
            node_views(r@) == self@.nodes,
    {
        let mut out: Vec<ClusterNode> = Vec::new();
        let mut k: usize = 0;
        while k < self.nodes.len()
            invariant
                k <= self.nodes@.len(),
                out@.len() == k,
                forall|i: int| 0 <= i < k ==> (#[trigger] out@[i])@ == self@.nodes[i],
            decreases self.nodes@.len() - k,
        {
            out.push(self.nodes[k].copy());
            k = k + 1;
        }
        assert(node_views(out@) =~= self@.nodes);
        out
    }

    pub fn get_cluster_info(&self, bucket_count: usize) -> (r: ClusterInfo)
        ensures
            r.name@ == self@.cluster_name,
            r.uuid@ == self@.cluster_uuid,
            node_views(r.nodes@) == self@.nodes,
            r.bucket_count == bucket_count,
            r.partition_map_revision == self@.partition_map.revision,
            r.total_vbuckets == self@.partition_map.num_vbuckets,
            r.orchestrator@ == self@.orchestrator,
    {
        ClusterInfo {
            name: self.cluster_name.clone(),
            uuid: self.cluster_uuid.clone(),
            nodes: self.list_nodes(),
            bucket_count,
            partition_map_revision: self.partition_map.revision,
            total_vbuckets: self.partition_map.num_vbuckets,
            orchestrator: self.orchestrator_state.copy(),
        }
    }

    pub fn get_failover_state(&self) -> (r: FailoverState)
        ensures
            r.config == self@.failover.config,
            r.auto_failover_count == self@.failover.auto_failover_count,
            r.quota_exhausted == (self@.failover.auto_failover_count
                >= self@.failover.config.max_count),
            texts(r.failed_over_nodes@) == self@.failover.failed_over_nodes,
            crate::cluster::failover::event_views(r.events@) == self@.failover.events,
            r.last_auto_failover == self@.failover.last_auto_failover,
    {
        self.failover_manager.get_state()
    }

    pub fn update_failover_config(&mut self, config: FailoverConfig)
        requires
            old(self).wf(),
        ensures
            final(self).wf(),
            final(self)@ == (ClusterView {
                failover: (FailoverView { config, ..old(self)@.failover }),
                ..old(self)@
            }),
    {
        self.failover_manager.update_config(config);
    }

    pub fn reset_failover_quota(&mut self)
        requires
            old(self).wf(),
        ensures
            final(self).wf(),
            final(self)@ == (ClusterView {
                failover: (FailoverView { auto_failover_count: 0, ..old(self)@.failover }),
                ..old(self)@
            }),
    {
        self.failover_manager.reset_quota();
    }

    /// Whether this node is the orchestrator.
    pub fn is_orchestrator(&self) -> (r: bool)
        ensures
            r == (self@.orchestrator.role == OrchestratorRole::Orchestrator),
    {
        self.orchestrator_state.role == OrchestratorRole::Orchestrator
    }

    pub fn get_orchestrator_state(&self) -> (r: OrchestratorState)
        ensures
            r@ == self@.orchestrator,
    {
        self.orchestrator_state.copy()
    }

    /// The Chronicle of this node.
    pub fn get_chronicle(&mut self) -> (r: &mut Chronicle)
        ensures
            *r == old(self).chronicle,
            *final(self) == (ClusterManager { chronicle: *final(r), ..*old(self) }),
    {
        &mut self.chronicle
    }
}

proof fn lemma_all_mentioned_once(names: Seq<Seq<char>>)
    requires
        names.no_duplicates(),
    ensures
        first_mentions(names) == names,
    decreases names.len(),
{
    if names.len() > 0 {
        let rest = names.drop_last();
        lemma_all_mentioned_once(rest);
        assert(!rest.contains(names.last())) by {
            if rest.contains(names.last()) {
                let i = choose|i: int| 0 <= i < rest.len() && rest[i] == names.last();
                assert(names[i] == names[names.len() - 1]);
            }
        }
        assert(rest.push(names.last()) =~= names);
    } else {
        assert(first_mentions(names) =~= names);
    }
}

impl ClusterManager {
    /// Whether the counters can be raised `n` times.
    pub fn has_room(&self, n: u64) -> (r: bool)
        ensures
            r == self@.room(n as int),
    {
        let limit: u64 = u64::MAX - n;
        self.chronicle.next_index <= limit && self.chronicle.current_term <= limit
            && self.partition_map.revision <= limit && self.orchestrator_state.revision <= limit
    }
}

impl ClusterManager {
    // ---- Health ----

    /// Looks at every node and sets its status. Returns the names of the silent nodes and of
    /// those that are back.
    fn survey(&mut self, now: i128) -> (r: (Vec<String>, Vec<String>))
        requires
            old(self).wf(),
        ensures
            final(self).wf(),
            texts(r.0@) == old(self)@.silent(now),
            texts(r.1@) == old(self)@.back(now),
            final(self)@ == (ClusterView {
                nodes: Seq::new(
                    old(self)@.nodes.len(),
                    |i: int| checked_node(old(self)@.nodes[i], old(self)@.self_node.name, now),
                ),
                ..old(self)@
            }),
    {
        let ghost before = self@;
        let ghost base = *self;
        let ghost me = before.self_node.name;
        let mut silent: Vec<String> = Vec::new();
        let mut back: Vec<String> = Vec::new();
        let mut k: usize = 0;
        proof {
            assert(texts(silent@) =~= silent_names(before.nodes, me, now, 0));
            assert(texts(back@) =~= back_names(before.nodes, me, now, 0));
        }
        while k < self.nodes.len()
            invariant
                k <= self.nodes@.len(),
                before == base@,
                me == before.self_node.name,
                self.nodes@.len() == before.nodes.len(),
                self.cluster_name == base.cluster_name,
                self.cluster_uuid == base.cluster_uuid,
                self.self_node == base.self_node,
                self.partition_map == base.partition_map,
                self.rebalance_status == base.rebalance_status,
                self.pending_transfers == base.pending_transfers,
                self.num_vbuckets == base.num_vbuckets,
                self.failover_manager == base.failover_manager,
                self.orchestrator_state == base.orchestrator_state,
                self.chronicle == base.chronicle,
                self.server_groups == base.server_groups,
                self.cluster_encryption == base.cluster_encryption,
                texts(silent@) == silent_names(before.nodes, me, now, k as int),
                texts(back@) == back_names(before.nodes, me, now, k as int),
                forall|i: int|
                    0 <= i < k ==> (#[trigger] self.nodes@[i])@ == checked_node(
                        before.nodes[i],
                        me,
                        now,
                    ),
                forall|i: int|
                    k <= i < before.nodes.len() ==> (#[trigger] self.nodes@[i])@
                        == before.nodes[i],
            decreases self.nodes@.len() - k,
        {
            assert(self.nodes@[k as int]@ == before.nodes[k as int]);
            let ghost silent0 = silent@;
            let ghost back0 = back@;
            let ghost node0 = before.nodes[k as int];
            let mine = same_text(self.nodes[k].name.as_str(), self.self_node.name.as_str());
            let status = self.nodes[k].status;
            let elapsed: i128 = seconds_since(now, self.nodes[k].last_heartbeat);
            if mine {
                let node = &mut self.nodes[k];
                node.last_heartbeat = now;
            } else if status == NodeStatus::FailedOver {
            } else if elapsed > 30 {
                silent.push(self.nodes[k].name.clone());
                if status == NodeStatus::Healthy || status == NodeStatus::Warmup {
                    let node = &mut self.nodes[k];
                    node.status = NodeStatus::Unhealthy;
                }
            } else if elapsed > 10 {
                silent.push(self.nodes[k].name.clone());
                if status == NodeStatus::Healthy {
                    let node = &mut self.nodes[k];
                    node.status = NodeStatus::Unhealthy;
                }
            } else if status == NodeStatus::Unhealthy {
                back.push(self.nodes[k].name.clone());
                let node = &mut self.nodes[k];
                node.status = NodeStatus::Healthy;
            }
            proof {
                assert(self.nodes@[k as int]@ =~= checked_node(node0, me, now));
                if is_silent(node0, me, now) {
                    assert(texts(silent@) =~= texts(silent0).push(node0.name));
                }
                if is_back(node0, me, now) {
                    assert(texts(back@) =~= texts(back0).push(node0.name));
                }
            }
            k = k + 1;
        }
        proof {
            assert(node_views(self.nodes@) =~= Seq::new(
                before.nodes.len(),
                |i: int| checked_node(before.nodes[i], me, now),
            ));
            assert(node_names(self@.nodes) =~= node_names(before.nodes));
        }
        (silent, back)
    }

    /// Looks at every node and keeps the failure timers. Returns the names of the silent nodes
    /// and whether any node is back.
    fn examine(&mut self, now: i128) -> (r: (Vec<String>, bool))
        requires
            old(self).wf(),
        ensures
            final(self).wf(),
            texts(r.0@) == old(self)@.silent(now),
            r.1 == (old(self)@.back(now).len() > 0),
            final(self)@ == old(self)@.examined(now),
    {
        let ghost before = self@;
        let (silent, back) = self.survey(now);
        let ghost surveyed = self@;
        let mut k: usize = 0;
        while k < back.len()
            invariant
                k <= back@.len(),
                self.wf(),
                self@ == (ClusterView {
                    failover: timers_cleared(surveyed.failover, texts(back@), k as int),
                    ..surveyed
                }),
            decreases back@.len() - k,
        {
            self.failover_manager.clear_failure_timer(back[k].as_str());
            k = k + 1;
        }
        let ghost cleared = self@;
        let mut k: usize = 0;
        while k < silent.len()
            invariant
                k <= silent@.len(),
                self.wf(),
                self@ == (ClusterView {
                    failover: timers_started(cleared.failover, texts(silent@), now, k as int),
                    ..cleared
                }),
            decreases silent@.len() - k,
        {
            self.failover_manager.start_failure_timer_at(silent[k].as_str(), now);
            k = k + 1;
        }
        assert(texts(back@).len() == back@.len());
        assert(texts(silent@).len() == silent@.len());
        assert(self@ =~= before.examined(now));
        (silent, back.len() > 0)
    }

    /// How many nodes are healthy.
    fn count_healthy(&self) -> (r: usize)
        ensures
            r == healthy_count(self@.nodes, self@.nodes.len() as int),
    {
        let mut healthy: usize = 0;
        let mut k: usize = 0;
        while k < self.nodes.len()
            invariant
                k <= self.nodes@.len(),
                healthy <= k,
                healthy == healthy_count(self@.nodes, k as int),
            decreases self.nodes@.len() - k,
        {
            assert(self@.nodes[k as int] == self.nodes@[k as int]@);
            if self.nodes[k].status == NodeStatus::Healthy {
                healthy = healthy + 1;
            }
            k = k + 1;
        }
        healthy
    }

    /// Whether the failover of a node would lose data.
    fn would_lose_data(&self, name: &str) -> (r: bool)
        ensures
            r == loses_data(self@.partition_map.map, name@),
    {
        let ghost map = self@.partition_map.map;
        let mut vb: usize = 0;
        while vb < self.partition_map.map.len()
            invariant
                vb <= self.partition_map.map@.len(),
                map == self@.partition_map.map,
                forall|k: int|
                    0 <= k < vb ==> !((#[trigger] map[k]).active == name@ && map[k].replicas.len()
                        == 0),
            decreases self.partition_map.map@.len() - vb,
        {
            let entry = &self.partition_map.map[vb];
            assert(map[vb as int] == entry@);
            assert(map[vb as int].replicas.len() == entry.replica_nodes@.len());
            if entry.replica_nodes.len() == 0 && same_text(entry.active_node.as_str(), name) {
                return true;
            }
            vb = vb + 1;
        }
        false
    }

    /// Whether a silent node is to be failed over.
    fn is_doomed(&self, name: &str, now: i128) -> (r: bool)
        requires
            self.wf(),
        ensures
            r == self@.dooms(name@, now),
    {
        if !self.failover_manager.is_failure_timeout_reached_at(name, now) {
            return false;
        }
        let healthy: usize = self.count_healthy();
        let (can, reason) = self.failover_manager.can_auto_failover_at(healthy, now);
        can && (self.failover_manager.config.failover_on_data_loss || !self.would_lose_data(name))
    }

    /// Fails a silent node over.
    fn fail_silent(&mut self, name: &str, id: String, now: i128, Ghost(n): Ghost<int>) -> (r:
        FailoverEvent)
        requires
            old(self).wf(),
            old(self)@.dooms(name@, now),
            old(self)@.room(n),
            n >= 2,
        ensures
            final(self).wf(),
            final(self)@.room(n - 2),
            r@ == old(self)@.failover_event(
                name@,
                FailoverType::Automatic,
                old(self)@.silence_of(name@, now),
                id@,
                now,
            ),
            final(self)@ == old(self)@.failed_over(
                name@,
                FailoverType::Automatic,
                old(self)@.silence_of(name@, now),
                id@,
                now,
            ),
    {
        let elapsed: u64 = match self.failover_manager.failure_timer_elapsed_at(name, now) {
            Some(e) => e,
            None => 0,
        };
        let reason = silence_text(elapsed, self.failover_manager.config.timeout_secs);
        assert(reason@ == self@.silence_of(name@, now));
        proof {
            lemma_failover_room(self@, name@, FailoverType::Automatic, reason@, id@, now, n);
        }
        self.execute_failover_at(name, FailoverType::Automatic, reason, id, now)
    }

    /// The health check at a given time: sets the status of every node by the age of its last
    /// heartbeat, keeps the failure timers, and fails over the nodes whose timer is up, one after
    /// the other as far as the configuration allows, each under the next of the given ids. Returns
    /// the failovers.
    #[verifier::rlimit(30)]
    pub fn check_node_health_at(&mut self, ids: &Vec<String>, now: i128) -> (r: Vec<FailoverEvent>)
        requires
            old(self).wf(),
            ids@.len() >= old(self)@.nodes.len(),
            old(self)@.room(2 * old(self)@.nodes.len() as int + 1),
        ensures
            final(self).wf(),
            final(self)@ == old(self)@.health_checked(texts(ids@), now),
            crate::cluster::failover::event_views(r@) == old(self)@.health_events(texts(ids@), now),
    {
        let ghost before = self@;
        proof {
            lemma_silent_bound(
                before.nodes,
                before.self_node.name,
                now,
                before.nodes.len() as int,
            );
        }
        let (silent, any_back) = self.examine(now);
        let ghost examined = self@;
        let ghost names = texts(silent@);
        let ghost id_texts = texts(ids@);
        assert(names.len() == silent@.len());
        let mut events: Vec<FailoverEvent> = Vec::new();
        let mut k: usize = 0;
        assert(crate::cluster::failover::event_views(events@) =~= examined.purged(
            names,
            id_texts,
            now,
            0,
        ).1);
        while k < silent.len()
            invariant
                k <= silent@.len() <= before.nodes.len(),
                events@.len() <= k,
                ids@.len() >= before.nodes.len(),
                names == texts(silent@),
                id_texts == texts(ids@),
                self.wf(),
                self@ == examined.purged(names, id_texts, now, k as int).0,
                self@.room(2 * (before.nodes.len() - k) + 1),
                crate::cluster::failover::event_views(events@) == examined.purged(
                    names,
                    id_texts,
                    now,
                    k as int,
                ).1,
            decreases silent@.len() - k,
        {
            let ghost prior = events@;
            let name = silent[k].as_str();
            assert(names[k as int] == name@);
            if self.is_doomed(name, now) {
                let id = ids[events.len()].clone();
                let ghost n = 2 * (before.nodes.len() - k) + 1;
                let event = self.fail_silent(name, id, now, Ghost(n));
                events.push(event);
                assert(crate::cluster::failover::event_views(events@)
                    =~= crate::cluster::failover::event_views(prior).push(event@));
            }
            k = k + 1;
        }
        if silent.len() > 0 || any_back {
            self.evaluate_orchestrator();
        }
        events
    }

    /// The health check now, with random ids for the failovers.
    pub fn check_node_health(&mut self) -> (r: Vec<FailoverEvent>)
        requires
            old(self).wf(),
            old(self)@.room(2 * old(self)@.nodes.len() as int + 1),
        ensures
            final(self).wf(),
            exists|ids: Seq<Seq<char>>, now: i128|
                final(self)@ == #[trigger] old(self)@.health_checked(ids, now)
                    && crate::cluster::failover::event_views(r@) == old(self)@.health_events(
                    ids,
                    now,
                ),
    {
        let mut ids: Vec<String> = Vec::new();
        let mut k: usize = 0;
        while k < self.nodes.len()
            invariant
                k <= self.nodes@.len(),
                ids@.len() == k,
            decreases self.nodes@.len() - k,
        {
            ids.push(random_id());
            k = k + 1;
        }
        let now: i128 = utc_now();
        let r = self.check_node_health_at(&ids, now);
        assert(final(self)@ == old(self)@.health_checked(texts(ids@), now));
        r
    }
}

proof fn lemma_silent_bound(nodes: Seq<NodeView>, me: Seq<char>, now: i128, k: int)
    requires
        0 <= k,
    ensures
        silent_names(nodes, me, now, k).len() <= k,
    decreases k,
{
    if k > 0 {
        lemma_silent_bound(nodes, me, now, k - 1);
    }
}

proof fn lemma_cleared_keeps_count(fm: FailoverView, names: Seq<Seq<char>>, k: int)
    ensures
        timers_cleared(fm, names, k).auto_failover_count == fm.auto_failover_count,
        timers_cleared(fm, names, k).config == fm.config,
        timers_cleared(fm, names, k).last_auto_failover == fm.last_auto_failover,
    decreases k,
{
    if k > 0 {
        lemma_cleared_keeps_count(fm, names, k - 1);
    }
}

proof fn lemma_started_keeps_count(fm: FailoverView, names: Seq<Seq<char>>, now: i128, k: int)
    ensures
        timers_started(fm, names, now, k).auto_failover_count == fm.auto_failover_count,
        timers_started(fm, names, now, k).config == fm.config,
        timers_started(fm, names, now, k).last_auto_failover == fm.last_auto_failover,
    decreases k,
{
    if k > 0 {
        lemma_started_keeps_count(fm, names, now, k - 1);
    }
}

proof fn lemma_timers_keep_count(v: ClusterView, now: i128)
    ensures
        v.examined(now).failover.auto_failover_count == v.failover.auto_failover_count,
        v.examined(now).failover.config == v.failover.config,
        v.examined(now).failover.last_auto_failover == v.failover.last_auto_failover,
{
    let back = v.back(now);
    let silent = v.silent(now);
    lemma_cleared_keeps_count(v.failover, back, back.len() as int);
    lemma_started_keeps_count(
        timers_cleared(v.failover, back, back.len() as int),
        silent,
        now,
        silent.len() as int,
    );
}

impl ClusterManager {
    // ---- Server groups ----

    /// The place of a server group.
    fn find_group(&self, name: &str) -> (r: Option<usize>)
        ensures
            match r {
                Some(i) => self@.group_place(name@) == Some(i as int) && i
                    < self.server_groups@.len() && self.server_groups@[i as int].name@ == name@
                    && self@.has_group(name@),
                None => self@.group_place(name@) is None && !self@.has_group(name@),
            },
    {
        let ghost names = group_names(self@.groups);
        let mut i: usize = 0;
        while i < self.server_groups.len()
            invariant
                i <= self.server_groups@.len(),
                names == group_names(self@.groups),
                place_of(names, name@, 0) == place_of(names, name@, i as int),
                forall|k: int| 0 <= k < i ==> #[trigger] names[k] != name@,
            decreases self.server_groups@.len() - i,
        {
            assert(names[i as int] == self.server_groups@[i as int].name@);
            if same_text(self.server_groups[i].name.as_str(), name) {
                return Some(i);
            }
            i = i + 1;
        }
        None
    }

    /// Creates a server group under an id and at a time.
    pub fn create_server_group_at(&mut self, name: &str, uuid: String, now: i128) -> (r: Result<
        ServerGroup,
    >)
        requires
            old(self).wf(),
            old(self)@.room(1),
        ensures
            final(self).wf(),
            match r {
                Ok(group) => {
                    &&& !old(self)@.has_group(name@)
                    &&& group@ == (GroupView { name: name@, uuid: uuid@, nodes: Seq::empty() })
                    &&& final(self)@ == old(self)@.group_created(name@, uuid@, now)
                },
                Err(e) => {
                    &&& old(self)@.has_group(name@)
                    &&& final(self)@ == old(self)@
                    &&& invalid(e, "Server group '"@ + name@ + "' already exists"@)
                },
            },
    {
        let ghost before = self@;
        if self.find_group(name).is_some() {
            let mut msg = "Server group '".to_owned();
            msg.append(name);
            msg.append("' already exists");
            return Err(NosqlError::InvalidRequest(msg));
        }
        let group = ServerGroup { name: name.to_owned(), uuid, nodes: Vec::new() };
        assert(group@ =~= (GroupView { name: name@, uuid: uuid@, nodes: Seq::empty() }));
        self.server_groups.push(group.copy());
        proof {
            assert(group_views(self.server_groups@) =~= before.groups.push(group@));
            assert(group_names(self@.groups) =~= group_names(before.groups).push(name@));
        }
        let payload = group_payload_text(name);
        self.tell(ConfigChangeType::ServerGroupAdd, payload, now);
        Ok(group)
    }

    /// Creates a server group.
    pub fn create_server_group(&mut self, name: &str) -> (r: Result<ServerGroup>)
        requires
            old(self).wf(),
            old(self)@.room(1),
        ensures
            final(self).wf(),
            r is Ok == !old(self)@.has_group(name@),
            match r {
                Ok(group) => group@.name == name@ && group@.nodes.len() == 0 && exists|now: i128|
                    final(self)@ == #[trigger] old(self)@.group_created(name@, group@.uuid, now),
                Err(e) => final(self)@ == old(self)@ && invalid(
                    e,
                    "Server group '"@ + name@ + "' already exists"@,
                ),
            },
    {
        let uuid = random_id();
        let now: i128 = utc_now();
        let ghost id = uuid@;
        let r = self.create_server_group_at(name, uuid, now);
        proof {
            if r is Ok {
                assert(r->Ok_0@.uuid == id);
                assert(final(self)@ == old(self)@.group_created(name@, r->Ok_0@.uuid, now));
            }
        }
        r
    }

    /// Deletes a server group, which must be empty.
    pub fn delete_server_group(&mut self, name: &str) -> (r: Result<()>)
        requires
            old(self).wf(),
        ensures
            final(self).wf(),
            match r {
                Ok(_) => {
                    let i = old(self)@.group_place(name@)->0;
                    &&& old(self)@.has_group(name@)
                    &&& old(self)@.groups[i].nodes.len() == 0
                    &&& final(self)@ == (ClusterView {
                        groups: old(self)@.groups.remove(i),
                        ..old(self)@
                    })
                },
                Err(e) => {
                    let i = old(self)@.group_place(name@)->0;
                    &&& final(self)@ == old(self)@
                    &&& if old(self)@.has_group(name@) {
                        old(self)@.groups[i].nodes.len() > 0 && invalid(
                            e,
                            "Server group '"@ + name@ + "' is not empty ("@ + dec(
                                old(self)@.groups[i].nodes.len(),
                            ) + " nodes)"@,
                        )
                    } else {
                        invalid(e, "Server group '"@ + name@ + "' not found"@)
                    }
                },
            },
    {
        let ghost before = self@;
        match self.find_group(name) {
            Some(i) => {
                assert(before.groups[i as int] == self.server_groups@[i as int]@);
                let count: usize = self.server_groups[i].nodes.len();
                if count > 0 {
                    let mut msg = "Server group '".to_owned();
                    msg.append(name);
                    msg.append("' is not empty (");
                    push_dec(&mut msg, count as u64);
                    msg.append(" nodes)");
                    return Err(NosqlError::InvalidRequest(msg));
                }
                let gone = self.server_groups.remove(i);
                proof {
                    assert(group_views(self.server_groups@) =~= before.groups.remove(i as int));
                    assert(group_names(self@.groups) =~= group_names(before.groups).remove(
                        i as int,
                    ));
                }
                Ok(())
            },
            None => {
                let mut msg = "Server group '".to_owned();
                msg.append(name);
                msg.append("' not found");
                Err(NosqlError::InvalidRequest(msg))
            },
        }
    }

    /// Moves a node to a server group.
    pub fn move_node_to_group(&mut self, node_name: &str, group_name: &str) -> (r: Result<()>)
        requires
            old(self).wf(),
        ensures
            final(self).wf(),
            match r {
                Ok(_) => {
                    &&& old(self)@.has_group(group_name@)
                    &&& old(self)@.has_node(node_name@)
                    &&& final(self)@ == old(self)@.regrouped(node_name@, group_name@)
                },
                Err(e) => {
                    &&& final(self)@ == old(self)@
                    &&& if !old(self)@.has_group(group_name@) {
                        invalid(e, "Server group '"@ + group_name@ + "' not found"@)
                    } else {
                        !old(self)@.has_node(node_name@) && no_such_node(e, node_name@)
                    }
                },
            },
    {
        let ghost before = self@;
        let place: usize = match self.find_group(group_name) {
            Some(i) => i,
            None => {
                let mut msg = "Server group '".to_owned();
                msg.append(group_name);
                msg.append("' not found");
                return Err(NosqlError::InvalidRequest(msg));
            },
        };
        let node_at: usize = match self.find_node(node_name) {
            Some(i) => i,
            None => {
                return Err(NosqlError::NodeNotFound(node_name.to_owned()));
            },
        };
        let ghost target = before.regrouped(node_name@, group_name@);
        let mut groups: Vec<ServerGroup> = Vec::new();
        let mut k: usize = 0;
        while k < self.server_groups.len()
            invariant
                k <= self.server_groups@.len(),
                self@ == before,
                before.group_place(group_name@) == Some(place as int),
                target == before.regrouped(node_name@, group_name@),
                groups@.len() == k,
                forall|i: int| 0 <= i < k ==> (#[trigger] groups@[i])@ == target.groups[i],
            decreases self.server_groups@.len() - k,
        {
            assert(before.groups[k as int] == self.server_groups@[k as int]@);
            let mut members = drop_name(&self.server_groups[k].nodes, node_name);
            let ghost rest = texts(members@);
            if k == place {
                members.push(node_name.to_owned());
                assert(texts(members@) =~= rest.push(node_name@));
            }
            let group = ServerGroup {
                name: self.server_groups[k].name.clone(),
                uuid: self.server_groups[k].uuid.clone(),
                nodes: members,
            };
            assert(group@ =~= target.groups[k as int]);
            groups.push(group);
            k = k + 1;
        }
        self.server_groups = groups;
        let node = &mut self.nodes[node_at];
        node.server_group = group_name.to_owned();
        proof {
            assert(group_views(self.server_groups@) =~= target.groups);
            assert(node_views(self.nodes@) =~= target.nodes);
            assert(node_names(self@.nodes) =~= node_names(before.nodes));
            assert(group_names(self@.groups) =~= group_names(before.groups));
        }
        Ok(())
    }

    pub fn list_server_groups(&self) -> (r: Vec<ServerGroup>)
        ensures
            group_views(r@) == self@.groups,
    {
        let mut out: Vec<ServerGroup> = Vec::new();
        let mut k: usize = 0;
        while k < self.server_groups.len()
            invariant
                k <= self.server_groups@.len(),
                out@.len() == k,
                forall|i: int| 0 <= i < k ==> (#[trigger] out@[i])@ == self@.groups[i],
            decreases self.server_groups@.len() - k,
        {
            out.push(self.server_groups[k].copy());
            k = k + 1;
        }
        assert(group_views(out@) =~= self@.groups);
        out
    }

    // ---- Heartbeats ----

    /// The nodes to ping: name, address of the health check, and address under which this node
    /// announces itself there.
    pub fn heartbeat_targets(&self) -> (r: Vec<HeartbeatTarget>)
        ensures
            r@.len() == remote_nodes(self@.nodes, self@.self_node.name, self@.nodes.len() as int)
                .len(),
            forall|i: int|
                0 <= i < r@.len() ==> (#[trigger] r@[i]).is_for(
                    remote_nodes(self@.nodes, self@.self_node.name, self@.nodes.len() as int)[i],
                    self@.self_node.name,
                ),
    {
        let ghost me = self@.self_node.name;
        let mut out: Vec<HeartbeatTarget> = Vec::new();
        let mut k: usize = 0;
        while k < self.nodes.len()
            invariant
                k <= self.nodes@.len(),
                me == self@.self_node.name,
                out@.len() == remote_nodes(self@.nodes, me, k as int).len(),
                forall|i: int|
                    0 <= i < out@.len() ==> (#[trigger] out@[i]).is_for(
                        remote_nodes(self@.nodes, me, k as int)[i],
                        me,
                    ),
            decreases self.nodes@.len() - k,
        {
            assert(self@.nodes[k as int] == self.nodes@[k as int]@);
            if !same_text(self.nodes[k].name.as_str(), self.self_node.name.as_str())
                && self.nodes[k].status != NodeStatus::FailedOver {
                let mut health_url = self.nodes[k].base_url();
                health_url.append("/health");
                let mut heartbeat_url = self.nodes[k].base_url();
                heartbeat_url.append("/api/v1/cluster/nodes/");
                heartbeat_url.append(self.self_node.name.as_str());
                heartbeat_url.append("/heartbeat");
                out.push(
                    HeartbeatTarget {
                        node_name: self.nodes[k].name.clone(),
                        health_url,
                        heartbeat_url,
                    },
                );
            }
            k = k + 1;
        }
        out
    }

    /// Takes in the answers to a round of pings: which nodes answered.
    pub fn heartbeats_received(&mut self, answers: &Vec<(String, bool)>, now: i128)
        requires
            old(self).wf(),
        ensures
            final(self).wf(),
            final(self)@ == old(self)@.answered(answers@, now, answers@.len() as int),
    {
        let ghost before = self@;
        let mut k: usize = 0;
        while k < answers.len()
            invariant
                k <= answers@.len(),
                self.wf(),
                self@ == before.answered(answers@, now, k as int),
            decreases answers@.len() - k,
        {
            if answers[k].1 {
                let ghost s = self@;
                let known = self.node_alive_at(answers[k].0.as_str(), now);
                assert(self@ == s.heard(answers@[k as int].0@, now));
            }
            k = k + 1;
        }
    }

    // ---- Moving data ----

    /// The transfers to work on in one round: none unless this node is the orchestrator, and
    /// at most thirty-two of those that wait.
    pub fn transfer_batch(&self) -> (r: Vec<VBucketTransfer>)
        ensures
            transfer_views(r@) == self@.batch(),
    {
        let mut out: Vec<VBucketTransfer> = Vec::new();
        assert(transfer_views(out@) =~= Seq::<TransferView>::empty());
        if !self.is_orchestrator() {
            return out;
        }
        let ghost all = waiting(self@.pending, self@.pending.len() as int);
        let mut k: usize = 0;
        while k < self.pending_transfers.len() && out.len() < 32
            invariant
                k <= self.pending_transfers@.len(),
                out@.len() <= 32,
                transfer_views(out@) == waiting(self@.pending, k as int),
            decreases self.pending_transfers@.len() - k,
        {
            let ghost prior = out@;
            assert(self@.pending[k as int] == self.pending_transfers@[k as int]@);
            if self.pending_transfers[k].status == TransferStatus::Pending {
                out.push(self.pending_transfers[k].copy());
                assert(transfer_views(out@) =~= transfer_views(prior).push(
                    self@.pending[k as int],
                ));
            }
            k = k + 1;
        }
        proof {
            lemma_waiting_prefix(self@.pending, k as int, self@.pending.len() as int);
            assert(transfer_views(out@).len() == out@.len());
            if k == self.pending_transfers@.len() {
                assert(transfer_views(out@) =~= self@.batch());
            } else {
                assert(transfer_views(out@) =~= self@.batch());
            }
        }
        out
    }

    /// What to do about a transfer.
    pub fn plan_transfer(&self, transfer: &VBucketTransfer) -> (r: TransferPlan)
        ensures
            self@.plans(transfer@, r),
    {
        let from = self.find_node(transfer.from_node.as_str());
        let to = self.find_node(transfer.to_node.as_str());
        match from {
            Some(i) => {
                assert(self@.nodes[i as int] == self.nodes@[i as int]@);
                if is_out(self.nodes[i].status) {
                    return TransferPlan::GiveUp;
                }
            },
            None => {},
        }
        match to {
            Some(i) => {
                assert(self@.nodes[i as int] == self.nodes@[i as int]@);
                if is_out(self.nodes[i].status) {
                    return TransferPlan::GiveUp;
                }
                let target_url = self.nodes[i].base_url();
                if same_text(transfer.from_node.as_str(), self.self_node.name.as_str()) {
                    return TransferPlan::Export { target_url };
                }
                match from {
                    Some(j) => {
                        assert(self@.nodes[j as int] == self.nodes@[j as int]@);
                        let source_url = self.nodes[j].base_url();
                        TransferPlan::Relay { source_url, target_url }
                    },
                    None => TransferPlan::GiveUp,
                }
            },
            None => TransferPlan::GiveUp,
        }
    }

    /// Enters the outcome of a transfer: it is completed unless the data of some bucket could
    /// not be moved.
    pub fn finish_transfer(&mut self, vbucket_id: u16, moves: &Vec<BucketMove>)
        requires
            old(self).wf(),
        ensures
            final(self).wf(),
            final(self)@ == if moves@.contains(BucketMove::Failed) {
                old(self)@.transfer_failed(vbucket_id)
            } else {
                old(self)@.transfer_completed(vbucket_id)
            },
    {
        let mut ok = true;
        let mut k: usize = 0;
        while k < moves.len()
            invariant
                k <= moves@.len(),
                ok == forall|i: int| 0 <= i < k ==> #[trigger] moves@[i] != BucketMove::Failed,
            decreases moves@.len() - k,
        {
            if moves[k] == BucketMove::Failed {
                assert(moves@[k as int] == BucketMove::Failed);
                ok = false;
            }
            k = k + 1;
        }
        if ok {
            self.complete_transfer(vbucket_id);
        } else {
            self.fail_transfer(vbucket_id);
        }
    }
}

/// A node to ping.
#[derive(Debug)]
pub struct HeartbeatTarget {
    pub node_name: String,
    pub health_url: String,
    /// Where this node announces itself.
    pub heartbeat_url: String,
}

impl HeartbeatTarget {
    /// Whether this is the target for a node, pinged by the node `me`.
    pub open spec fn is_for(self, node: NodeView, me: Seq<char>) -> bool {
        let base = url_of(node.hostname, node.port);
        &&& self.node_name@ == node.name
        &&& self.health_url@ == base + "/health"@
        &&& self.heartbeat_url@ == base + "/api/v1/cluster/nodes/"@ + me + "/heartbeat"@
    }
}

/// The nodes among the first `k` that are pinged: all but this one and those failed over.
pub open spec fn remote_nodes(nodes: Seq<NodeView>, me: Seq<char>, k: int) -> Seq<NodeView>
    decreases k,
{
    if k <= 0 {
        Seq::empty()
    } else if nodes[k - 1].name != me && nodes[k - 1].status != NodeStatus::FailedOver {
        remote_nodes(nodes, me, k - 1).push(nodes[k - 1])
    } else {
        remote_nodes(nodes, me, k - 1)
    }
}

/// How the data of a vBucket is to be moved.
#[derive(Debug)]
pub enum TransferPlan {
    /// It cannot be moved: a node is missing or not well.
    GiveUp,
    /// The data is on this node and is sent to the target.
    Export { target_url: String },
    /// The data is fetched from the source and sent to the target.
    Relay { source_url: String, target_url: String },
}

/// What became of the data of one bucket in a transfer.
#[derive(Debug, Clone, Copy, PartialEq, Eq, Structural)]
pub enum BucketMove {
    /// There was nothing to move.
    Nothing,
    Moved,
    Failed,
}

/// The answer of a node to a request.
#[derive(Debug, Clone, Copy, PartialEq, Eq, Structural)]
pub enum Reply {
    /// An HTTP status.
    Status(u16),
    /// The node could not be reached, or did not answer.
    Unreachable,
}

/// Whether a reply reports success.
pub open spec fn succeeded(reply: Reply) -> bool {
    match reply {
        Reply::Status(code) => 200 <= code && code <= 299,
        Reply::Unreachable => false,
    }
}

/// Whether a reply reports success.
pub fn is_success(reply: Reply) -> (r: bool)
    ensures
        r == succeeded(reply),
{
    match reply {
        Reply::Status(code) => 200 <= code && code <= 299,
        Reply::Unreachable => false,
    }
}

/// What the export of one bucket from its source gave.
#[derive(Debug, Clone, Copy, PartialEq, Eq, Structural)]
pub enum ExportOutcome {
    /// That many documents.
    Documents(usize),
    /// A reply that brought no documents.
    NoDocuments(Reply),
    /// A reply that could not be read.
    Unreadable,
}

/// What follows from the export of one bucket: `None` where there are documents to send on.
pub fn after_export(outcome: ExportOutcome) -> (r: Option<BucketMove>)
    ensures
        r == match outcome {
            ExportOutcome::Documents(n) => if n > 0 {
                None
            } else {
                Some(BucketMove::Nothing)
            },
            ExportOutcome::NoDocuments(reply) => if reply == Reply::Status(404) {
                Some(BucketMove::Nothing)
            } else {
                Some(BucketMove::Failed)
            },
            ExportOutcome::Unreadable => Some(BucketMove::Failed),
        },
{
    match outcome {
        ExportOutcome::Documents(n) => if n > 0 {
            None
        } else {
            Some(BucketMove::Nothing)
        },
        ExportOutcome::NoDocuments(reply) => match reply {
            Reply::Status(404) => Some(BucketMove::Nothing),
            _ => Some(BucketMove::Failed),
        },
        ExportOutcome::Unreadable => Some(BucketMove::Failed),
    }
}

/// What follows from the local export of one bucket, which gave that many documents or failed:
/// `None` where there are documents to send.
pub fn after_local_export(documents: Option<usize>) -> (r: Option<BucketMove>)
    ensures
        r == match documents {
            Some(n) => if n > 0 {
                None
            } else {
                Some(BucketMove::Nothing)
            },
            None => Some(BucketMove::Nothing),
        },
{
    match documents {
        Some(n) => if n > 0 {
            None
        } else {
            Some(BucketMove::Nothing)
        },
        None => Some(BucketMove::Nothing),
    }
}

/// What became of a bucket whose documents were sent to the target.
pub fn after_send(reply: Reply) -> (r: BucketMove)
    ensures
        r == if succeeded(reply) {
            BucketMove::Moved
        } else {
            BucketMove::Failed
        },
{
    if is_success(reply) {
        BucketMove::Moved
    } else {
        BucketMove::Failed
    }
}

/// The address to which the data of a vBucket is sent.
pub fn transfer_url(target_url: &str) -> (r: String)
    ensures
        r@ == target_url@ + "/api/v1/cluster/vbuckets/transfer"@,
{
    let mut url = target_url.to_owned();
    url.append("/api/v1/cluster/vbuckets/transfer");
    url
}

/// The address from which the data of a vBucket is fetched.
pub fn export_url(source_url: &str, bucket: &str, vbucket_id: u16) -> (r: String)
    ensures
        r@ == source_url@ + "/api/v1/cluster/vbuckets/"@ + bucket@ + "/"@ + dec(vbucket_id as nat),
{
    let mut url = source_url.to_owned();
    url.append("/api/v1/cluster/vbuckets/");
    url.append(bucket);
    url.append("/");
    push_dec(&mut url, vbucket_id as u64);
    url
}

/// Whether a node is not well enough to take part in a transfer.
pub open spec fn out_of_order(status: NodeStatus) -> bool {
    status == NodeStatus::Failed || status == NodeStatus::FailedOver || status
        == NodeStatus::Unhealthy
}

fn is_out(status: NodeStatus) -> (r: bool)
    ensures
        r == out_of_order(status),
{
    status == NodeStatus::Failed || status == NodeStatus::FailedOver || status
        == NodeStatus::Unhealthy
}

impl ClusterView {
    /// After the first `k` answers to a round of pings.
    pub open spec fn answered(self, answers: Seq<(String, bool)>, now: i128, k: int) -> Self
        decreases k,
    {
        if k <= 0 {
            self
        } else if answers[k - 1].1 {
            self.answered(answers, now, k - 1).heard(answers[k - 1].0@, now)
        } else {
            self.answered(answers, now, k - 1)
        }
    }

    /// The transfers to work on in one round.
    pub open spec fn batch(self) -> Seq<TransferView> {
        let all = waiting(self.pending, self.pending.len() as int);
        if self.orchestrator.role != OrchestratorRole::Orchestrator {
            Seq::empty()
        } else if all.len() > 32 {
            all.take(32)
        } else {
            all
        }
    }

    /// Whether a node is known and not well enough for a transfer.
    pub open spec fn unwell(self, name: Seq<char>) -> bool {
        self.has_node(name) && out_of_order(self.nodes[self.node_place(name)->0].status)
    }

    /// The address of a node.
    pub open spec fn address(self, name: Seq<char>) -> Seq<char> {
        let n = self.nodes[self.node_place(name)->0];
        url_of(n.hostname, n.port)
    }

    /// Whether a plan is the one for a transfer.
    pub open spec fn plans(self, t: TransferView, plan: TransferPlan) -> bool {
        let hopeless = self.unwell(t.from_node) || self.unwell(t.to_node) || !self.has_node(
            t.to_node,
        ) || (t.from_node != self.self_node.name && !self.has_node(t.from_node));
        match plan {
            TransferPlan::GiveUp => hopeless,
            TransferPlan::Export { target_url } => !hopeless && t.from_node == self.self_node.name
                && target_url@ == self.address(t.to_node),
            TransferPlan::Relay { source_url, target_url } => !hopeless && t.from_node
                != self.self_node.name && source_url@ == self.address(t.from_node) && target_url@
                == self.address(t.to_node),
        }
    }
}

proof fn lemma_waiting_prefix(pending: Seq<TransferView>, a: int, b: int)
    requires
        0 <= a <= b,
    ensures
        waiting(pending, a).len() <= waiting(pending, b).len(),
        waiting(pending, b).take(waiting(pending, a).len() as int) == waiting(pending, a),
    decreases b - a,
{
    if a < b {
        lemma_waiting_prefix(pending, a, b - 1);
        let n = waiting(pending, a).len() as int;
        assert(waiting(pending, b).take(n) =~= waiting(pending, b - 1).take(n));
    } else {
        assert(waiting(pending, a).take(waiting(pending, a).len() as int) =~= waiting(pending, a));
    }
}

// ---- Laws ----

proof fn lemma_service_names(nodes: Seq<NodeView>, k: int)
    requires
        0 <= k <= nodes.len(),
    ensures
        forall|i: int|
            0 <= i < service_names(nodes, k).len() ==> exists|j: int|
                0 <= j < k && in_service((#[trigger] nodes[j]).status) && nodes[j].name
                    == #[trigger] service_names(nodes, k)[i],
        forall|j: int|
            0 <= j < k && in_service((#[trigger] nodes[j]).status) ==> service_names(
                nodes,
                k,
            ).contains(nodes[j].name),
        node_names(nodes).no_duplicates() ==> service_names(nodes, k).no_duplicates(),
    decreases k,
{
    if k > 0 {
        lemma_service_names(nodes, k - 1);
        let rest = service_names(nodes, k - 1);
        let list = service_names(nodes, k);
        let last = nodes[k - 1];
        assert forall|j: int| 0 <= j < k && in_service((#[trigger] nodes[j]).status) implies list.contains(
            nodes[j].name,
        ) by {
            if j < k - 1 {
                assert(rest.contains(nodes[j].name));
                let i = choose|i: int| 0 <= i < rest.len() && rest[i] == nodes[j].name;
                assert(list[i] == nodes[j].name);
            } else {
                assert(list[rest.len() as int] == nodes[j].name);
            }
        }
        assert forall|i: int| 0 <= i < list.len() implies exists|j: int|
            0 <= j < k && in_service((#[trigger] nodes[j]).status) && nodes[j].name
                == #[trigger] list[i] by {
            if i < rest.len() {
                assert(list[i] == rest[i]);
                let j = choose|j: int|
                    0 <= j < k - 1 && in_service((#[trigger] nodes[j]).status) && nodes[j].name
                        == rest[i];
                assert(in_service(nodes[j].status));
            } else {
                assert(in_service(nodes[k - 1].status));
            }
        }
        if node_names(nodes).no_duplicates() {
            assert forall|a: int, b: int|
                0 <= a < list.len() && 0 <= b < list.len() && a != b implies list[a]
                != list[b] by {
                let names = node_names(nodes);
                if a == rest.len() || b == rest.len() {
                    let c = if a == rest.len() {
                        b
                    } else {
                        a
                    };
                    assert(list[c] == rest[c]);
                    let j = choose|j: int|
                        0 <= j < k - 1 && in_service((#[trigger] nodes[j]).status)
                            && nodes[j].name == rest[c];
                    assert(names[j] != names[k - 1]);
                } else {
                    assert(rest[a] != rest[b]);
                }
            }
        }
    }
}

/// The names of the nodes in service are different from each other.
pub proof fn law_service_names_are_different(v: ClusterView)
    requires
        v.valid(),
    ensures
        v.service().no_duplicates(),
{
    lemma_service_names(v.nodes, v.nodes.len() as int);
}

/// A node that is failed over is out of service.
pub proof fn law_failover_takes_node_out_of_service(v: ClusterView, name: Seq<char>)
    requires
        v.valid(),
        v.has_node(name),
    ensures
        !v.cut_off(name).service().contains(name),
{
    lemma_has_node(v, name);
    let p = v.node_place(name)->0;
    let cut = v.cut_off(name);
    lemma_service_names(cut.nodes, cut.nodes.len() as int);
    if cut.service().contains(name) {
        let i = choose|i: int| 0 <= i < cut.service().len() && cut.service()[i] == name;
        let j = choose|j: int|
            0 <= j < cut.nodes.len() && in_service((#[trigger] cut.nodes[j]).status)
                && cut.nodes[j].name == cut.service()[i];
        assert(node_names(v.nodes)[j] == name);
        assert(node_names(v.nodes)[p] == name);
        assert(j == p);
    }
}

/// After the failover of a node nothing is left with it: every vBucket is owned by a node in
/// service, as long as there is one.
pub proof fn law_failover_leaves_nothing_behind(
    v: ClusterView,
    name: Seq<char>,
    failover_type: FailoverType,
    reason: Seq<char>,
    id: Seq<char>,
    now: i128,
    vb: int,
)
    requires
        v.valid(),
        v.has_node(name),
        v.cut_off(name).service().len() > 0,
        0 <= vb < v.partition_map.map.len(),
    ensures
        v.failed_over(name, failover_type, reason, id, now).partition_map.map[vb].active != name,
        v.cut_off(name).service().contains(
            v.failed_over(name, failover_type, reason, id, now).partition_map.map[vb].active,
        ),
{
    law_failover_takes_node_out_of_service(v, name);
    let cut = v.cut_off(name);
    let names = cut.service();
    let was = owners(cut.partition_map.map);
    crate::cluster::partition::lemma_new_owner_is_a_node(was, names, vb);
    let now_owner = crate::cluster::partition::new_owner(was, names, vb);
    let spread = cut.rebalanced_over(names, now);
    assert(spread.partition_map.map[vb].active == now_owner);
}

proof fn lemma_failover_is_recorded(
    v: ClusterView,
    name: Seq<char>,
    failover_type: FailoverType,
    reason: Seq<char>,
    id: Seq<char>,
    now: i128,
)
    ensures
        v.failed_over(name, failover_type, reason, id, now).failover == v.failover.recorded(
            name,
            v.failover_event(name, failover_type, reason, id, now),
        ),
{
}

proof fn lemma_all_covered(map: Seq<OwnershipView>, node: Seq<char>, k: int)
    requires
        0 <= k <= map.len(),
        !loses_data(map, node),
    ensures
        covered_count(map, node, k) == owned_count(map, node, k),
    decreases k,
{
    if k > 0 {
        lemma_all_covered(map, node, k - 1);
        assert(!(map[k - 1].active == node && map[k - 1].replicas.len() == 0));
    }
}

proof fn lemma_purge_keeps_to_the_limits(
    v: ClusterView,
    names: Seq<Seq<char>>,
    ids: Seq<Seq<char>>,
    now: i128,
    k: int,
)
    ensures
        ({
            let (s, events) = v.purged(names, ids, now, k);
            &&& s.failover.config == v.failover.config
            &&& events.len() > 0 ==> s.failover.auto_failover_count == v.failover.auto_failover_count
                + events.len() && s.failover.auto_failover_count <= v.failover.config.max_count
                && s.failover.last_auto_failover == Some(now)
            &&& events.len() == 0 ==> s.failover == v.failover
            &&& v.failover.cooling_down(now) ==> events.len() == 0
            &&& v.failover.config.cooldown_secs > 0 ==> events.len() <= 1
            &&& !v.failover.config.failover_on_data_loss ==> forall|i: int|
                0 <= i < events.len() ==> (#[trigger] events[i]).replicas_promoted
                    == events[i].vbuckets_affected
        }),
    decreases k,
{
    if k > 0 {
        lemma_purge_keeps_to_the_limits(v, names, ids, now, k - 1);
        let (s, events) = v.purged(names, ids, now, k - 1);
        let name = names[k - 1];
        if s.dooms(name, now) {
            let id = ids[events.len() as int];
            let reason = s.silence_of(name, now);
            lemma_failover_is_recorded(s, name, FailoverType::Automatic, reason, id, now);
            if !v.failover.config.failover_on_data_loss {
                let map = s.partition_map.map;
                lemma_all_covered(map, name, map.len() as int);
            }
        }
    }
}

/// A health check keeps to the limits of automatic failover. It never takes the counter past the
/// quota; during the cooldown it fails over nothing, and where there is a cooldown one node at most;
/// and unless data may be lost, every vBucket of a node that it fails over has a replica to promote.
pub proof fn law_health_check_keeps_to_the_limits(v: ClusterView, ids: Seq<Seq<char>>, now: i128)
    ensures
        v.failover.auto_failover_count <= v.failover.config.max_count ==> v.health_checked(
            ids,
            now,
        ).failover.auto_failover_count <= v.failover.config.max_count,
        v.health_checked(ids, now).failover.auto_failover_count
            == v.failover.auto_failover_count + v.health_events(ids, now).len(),
        v.failover.cooling_down(now) ==> v.health_events(ids, now).len() == 0,
        v.failover.config.cooldown_secs > 0 ==> v.health_events(ids, now).len() <= 1,
        !v.failover.config.failover_on_data_loss ==> forall|i: int|
            0 <= i < v.health_events(ids, now).len() ==> (#[trigger] v.health_events(
                ids,
                now,
            )[i]).replicas_promoted == v.health_events(ids, now)[i].vbuckets_affected,
{
    let names = v.silent(now);
    let s = v.examined(now);
    lemma_timers_keep_count(v, now);
    lemma_purge_keeps_to_the_limits(s, names, ids, now, names.len() as int);
}

proof fn lemma_without(list: Seq<Seq<char>>, name: Seq<char>, k: int)
    requires
        0 <= k <= list.len(),
    ensures
        !without(list, name, k).contains(name),
    decreases k,
{
    if k > 0 {
        lemma_without(list, name, k - 1);
        let rest = without(list, name, k - 1);
        let out = without(list, name, k);
        if out.contains(name) {
            let i = choose|i: int| 0 <= i < out.len() && out[i] == name;
            if i < rest.len() {
                assert(rest[i] == name);
                assert(rest.contains(name));
            }
        }
    }
}

/// Promotion hands a vBucket of the failed node to its first replica, and the failed node is
/// no replica of anything any more.
pub proof fn law_promotion_uses_a_replica(entry: OwnershipView, failed: Seq<char>)
    ensures
        entry.active == failed && entry.replicas.len() > 0 ==> promoted_entry(entry, failed).active
            == entry.replicas[0],
        entry.active != failed ==> promoted_entry(entry, failed).active == entry.active,
        !promoted_entry(entry, failed).replicas.contains(failed),
{
    lemma_without(entry.replicas, failed, entry.replicas.len() as int);
    if entry.replicas.len() > 0 {
        let rest = without_name(entry.replicas, entry.replicas[0]);
        lemma_without(rest, failed, rest.len() as int);
    }
}

pub(crate) proof fn lemma_electorate(nodes: Seq<NodeView>, k: int)
    requires
        0 <= k <= nodes.len(),
    ensures
        forall|j: int|
            0 <= j < k && electable((#[trigger] nodes[j]).status) ==> electorate(
                nodes,
                k,
            ).contains(nodes[j]),
        forall|i: int|
            0 <= i < electorate(nodes, k).len() ==> nodes.contains(
                #[trigger] electorate(nodes, k)[i],
            ) && electable(electorate(nodes, k)[i].status),
    decreases k,
{
    if k > 0 {
        lemma_electorate(nodes, k - 1);
        let rest = electorate(nodes, k - 1);
        let list = electorate(nodes, k);
        assert(nodes.contains(nodes[k - 1]));
        assert forall|j: int| 0 <= j < k && electable((#[trigger] nodes[j]).status) implies list.contains(
            nodes[j],
        ) by {
            if j < k - 1 {
                assert(rest.contains(nodes[j]));
                let i = choose|i: int| 0 <= i < rest.len() && rest[i] == nodes[j];
                assert(list[i] == nodes[j]);
            } else {
                assert(list[rest.len() as int] == nodes[j]);
            }
        }
    }
}

/// After an election the orchestrator is the healthy node with the lowest name, and Chronicle
/// is led here exactly when that is this node.
pub proof fn law_lowest_healthy_node_leads(v: ClusterView, j: int)
    requires
        0 <= j < v.nodes.len(),
        electable(v.nodes[j].status),
    ensures
        !crate::text::text_lt(v.nodes[j].name, v.orchestrated().orchestrator.node),
        v.orchestrated().chronicle.is_leader == (v.orchestrated().orchestrator.node
            == v.self_node.name),
        v.orchestrated().chronicle.is_leader == (v.orchestrated().orchestrator.role
            == OrchestratorRole::Orchestrator),
{
    let voters = electorate(v.nodes, v.nodes.len() as int);
    lemma_electorate(v.nodes, v.nodes.len() as int);
    assert(voters.contains(v.nodes[j]));
    let i = choose|i: int| 0 <= i < voters.len() && voters[i] == v.nodes[j];
    let names = node_names(voters);
    let e = lemma_someone_is_elected(names);
    assert(is_elected(names, elected_place(names)));
    assert(names[i] == v.nodes[j].name);
}

/// Some node of a non-empty list is elected.
pub(crate) proof fn lemma_someone_is_elected(names: Seq<Seq<char>>) -> (i: int)
    requires
        names.len() > 0,
    ensures
        is_elected(names, i),
    decreases names.len(),
{
    if names.len() == 1 {
        crate::text::lemma_text_lt_irreflexive(names[0]);
        0
    } else {
        let rest = names.drop_last();
        let best = lemma_someone_is_elected(rest);
        let last = names.len() - 1;
        if crate::text::text_lt(names[last], names[best]) {
            crate::text::lemma_text_lt_irreflexive(names[last]);
            assert forall|j: int| 0 <= j < names.len() implies !crate::text::text_lt(
                #[trigger] names[j],
                names[last],
            ) by {
                if j < last && crate::text::text_lt(names[j], names[last]) {
                    crate::text::lemma_text_lt_transitive(names[j], names[last], names[best]);
                    assert(rest[j] == names[j]);
                }
            }
            assert forall|j: int| 0 <= j < last implies #[trigger] names[j] != names[last] by {
                assert(rest[j] == names[j]);
            }
            last
        } else {
            assert forall|j: int| 0 <= j < names.len() implies !crate::text::text_lt(
                #[trigger] names[j],
                names[best],
            ) by {
                if j < last {
                    assert(rest[j] == names[j]);
                }
            }
            assert forall|j: int| 0 <= j < best implies #[trigger] names[j] != names[best] by {
                assert(rest[j] == names[j]);
            }
            best
        }
    }
}

} // verus!
