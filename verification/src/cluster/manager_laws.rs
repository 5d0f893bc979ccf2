//! What the operations on the cluster do, in terms of its nodes and vBuckets.

use crate::cluster::chronicle::ConfigChangeType;
use crate::cluster::failover::{FailoverType, FailoverView};
use crate::cluster::manager::{
    back_names, checked_node, covered_count, electorate, finished_count, group_map, healthy_count,
    is_back, is_silent, law_service_names_are_different, lemma_has_node, loses_data, node_names,
    node_payload, owned_count, promoted_entry, remote_nodes, service_names, several_groups,
    silent_names, succeeded, timers_cleared, timers_started, transfer_place, waiting,
    waiting_place, without_name, ClusterView, Reply, TransferPlan,
};
use crate::cluster::node::{url_of, GroupView, NodeStatus, NodeView};
use crate::cluster::orchestrator::OrchestratorRole;
use crate::cluster::partition::{
    law_rebalance_is_even, law_replicas_are_no_more_than_asked, occurrences, owners, target,
    OwnershipView, Progress, TransferStatus, TransferView,
};
use crate::config::ServerConfig;
use crate::error::NosqlError;
use crate::text::dec;
use vstd::prelude::*;

verus! {

// ---- Which nodes count ----

proof fn lemma_service(nodes: Seq<NodeView>, k: int)
    requires
        0 <= k <= nodes.len(),
    ensures
        service_names(nodes, k) == nodes.take(k).filter(
            |n: NodeView|
                n.status == NodeStatus::Healthy || n.status == NodeStatus::Warmup || n.status
                    == NodeStatus::Unhealthy,
        ).map_values(|n: NodeView| n.name),
        electorate(nodes, k) == nodes.take(k).filter(
            |n: NodeView| n.status == NodeStatus::Healthy || n.status == NodeStatus::Warmup,
        ),
        healthy_count(nodes, k) == nodes.take(k).filter(
            |n: NodeView| n.status == NodeStatus::Healthy,
        ).len(),
    decreases k,
{
    reveal(Seq::filter);
    let serving = |n: NodeView|
        n.status == NodeStatus::Healthy || n.status == NodeStatus::Warmup || n.status
            == NodeStatus::Unhealthy;
    if k > 0 {
        lemma_service(nodes, k - 1);
        assert(nodes.take(k).drop_last() =~= nodes.take(k - 1));
        assert(nodes.take(k).last() == nodes[k - 1]);
    }
    assert(service_names(nodes, k) =~= nodes.take(k).filter(serving).map_values(
        |n: NodeView| n.name,
    ));
}

/// Data is on the nodes that are healthy, warming up or unhealthy, not on those that have failed or
/// were failed over. The orchestrator is elected among the healthy ones and those warming up.
pub proof fn law_nodes_in_service(v: ClusterView)
    ensures
        v.service() == v.nodes.filter(
            |n: NodeView|
                n.status == NodeStatus::Healthy || n.status == NodeStatus::Warmup || n.status
                    == NodeStatus::Unhealthy,
        ).map_values(|n: NodeView| n.name),
        electorate(v.nodes, v.nodes.len() as int) == v.nodes.filter(
            |n: NodeView| n.status == NodeStatus::Healthy || n.status == NodeStatus::Warmup,
        ),
        healthy_count(v.nodes, v.nodes.len() as int) == v.nodes.filter(
            |n: NodeView| n.status == NodeStatus::Healthy,
        ).len(),
{
    lemma_service(v.nodes, v.nodes.len() as int);
    assert(v.nodes.take(v.nodes.len() as int) =~= v.nodes);
}

// ---- Changes that are agreed on ----

/// The leader puts a change into the log, with its kind, its payload and its own name; a follower
/// does nothing.
pub proof fn law_leaders_log_changes(
    v: ClusterView,
    change_type: ConfigChangeType,
    payload: Seq<char>,
    now: i128,
)
    ensures
        ({
            let after = v.told(change_type, payload, now);
            &&& !v.chronicle.is_leader ==> after == v
            &&& v.chronicle.is_leader ==> {
                let e = after.chronicle.log.last();
                &&& after.chronicle.log.len() == v.chronicle.log.len() + 1
                &&& after.chronicle.log.drop_last() == v.chronicle.log
                &&& e.change_type == change_type
                &&& e.payload == payload
                &&& e.proposed_by == v.self_node.name
                &&& e.index == v.chronicle.next_index
                &&& e.term == v.chronicle.term
            }
            &&& after == (ClusterView { chronicle: after.chronicle, ..v })
        }),
{
    let after = v.told(change_type, payload, now);
    if v.chronicle.is_leader {
        assert(after.chronicle.log.drop_last() =~= v.chronicle.log);
    }
    assert(after =~= ClusterView { chronicle: after.chronicle, ..v });
}

// ---- Rebalance ----

/// A rebalance puts the map over the given nodes, evenly. Its transfers are to be carried out, and
/// it is in progress, where there are any; else it is done. It changes neither the nodes nor the
/// failover state nor the orchestrator.
pub proof fn law_rebalance_spreads_over_nodes(
    v: ClusterView,
    names: Seq<Seq<char>>,
    now: i128,
    i: int,
)
    requires
        names.no_duplicates(),
        0 <= i < names.len(),
    ensures
        ({
            let after = v.rebalanced_over(names, now);
            let transfers = v.partition_map.rebalance_transfers(names);
            &&& occurrences(owners(after.partition_map.map), names[i]) == target(
                v.partition_map.map.len(),
                names.len(),
                i,
            )
            &&& transfers.len() > 0 ==> after.pending == transfers
            &&& transfers.len() > 0 ==> after.rebalance_status.in_progress
                && after.rebalance_status.progress == Progress::NotStarted
                && after.rebalance_status.transfers_total == transfers.len() as usize
                && after.rebalance_status.transfers_completed == 0
                && after.rebalance_status.source_map_revision == v.partition_map.revision
                && after.rebalance_status.target_map_revision == after.partition_map.revision
            &&& transfers.len() == 0 ==> after.pending == v.pending
            &&& transfers.len() == 0 ==> !after.rebalance_status.in_progress
                && after.rebalance_status.progress == Progress::Done
            &&& after.nodes == v.nodes
            &&& after.failover == v.failover
            &&& after.orchestrator == v.orchestrator
            &&& after.groups == v.groups
            &&& after.self_node == v.self_node
            &&& after.partition_map.num_vbuckets == v.partition_map.num_vbuckets
            &&& after.partition_map.num_replicas == v.partition_map.num_replicas
            &&& v.partition_map.revision < u64::MAX ==> after.partition_map.revision
                == v.partition_map.revision + 1
        }),
{
    law_rebalance_is_even(v.partition_map, names, i);
    let plain = v.partition_map.rebalanced(names);
    let grouped = v.partition_map.group_rebalanced(
        names,
        group_map(v.nodes, v.nodes.len() as int),
    );
    assert(owners(grouped.map) =~= owners(plain.map));
}

/// Replicas mind server groups exactly where the nodes are in more than one.
pub proof fn law_groups_are_minded(v: ClusterView, names: Seq<Seq<char>>, i: int, j: int)
    requires
        0 <= i < v.nodes.len(),
        0 <= j < v.nodes.len(),
    ensures
        v.nodes[i].server_group != v.nodes[j].server_group ==> v.map_over(names)
            == v.partition_map.group_rebalanced(names, group_map(v.nodes, v.nodes.len() as int)),
        (forall|k: int|
            0 <= k < v.nodes.len() ==> (#[trigger] v.nodes[k]).server_group
                == v.nodes[0].server_group) ==> v.map_over(names) == v.partition_map.rebalanced(
            names,
        ),
{
    if v.nodes[i].server_group != v.nodes[j].server_group {
        if v.nodes[i].server_group != v.nodes[0].server_group {
            assert(several_groups(v.nodes));
        } else {
            assert(v.nodes[j].server_group != v.nodes[0].server_group);
            assert(several_groups(v.nodes));
        }
    }
}

proof fn lemma_group_map(nodes: Seq<NodeView>, k: int)
    requires
        0 <= k <= nodes.len(),
        node_names(nodes).no_duplicates(),
    ensures
        forall|i: int|
            0 <= i < k ==> group_map(nodes, k).contains_key((#[trigger] nodes[i]).name) && group_map(
                nodes,
                k,
            )[nodes[i].name] == nodes[i].server_group,
    decreases k,
{
    if k > 0 {
        lemma_group_map(nodes, k - 1);
        assert forall|i: int| 0 <= i < k implies group_map(nodes, k).contains_key(
            (#[trigger] nodes[i]).name,
        ) && group_map(nodes, k)[nodes[i].name] == nodes[i].server_group by {
            if i < k - 1 {
                assert(node_names(nodes)[i] != node_names(nodes)[k - 1]);
            }
        }
    }
}

/// The map of groups says of each node which group it is in.
pub proof fn law_group_map_tells_the_groups(v: ClusterView, i: int)
    requires
        v.valid(),
        0 <= i < v.nodes.len(),
    ensures
        group_map(v.nodes, v.nodes.len() as int).contains_key(v.nodes[i].name),
        group_map(v.nodes, v.nodes.len() as int)[v.nodes[i].name] == v.nodes[i].server_group,
{
    lemma_group_map(v.nodes, v.nodes.len() as int);
}

// ---- Election ----

/// An election makes the elected node the orchestrator, under its address, with as many taking part
/// as can be elected. The revision and the term rise exactly where that is another node than before.
/// Nothing else changes, and nothing at all where nobody can be elected.
pub proof fn law_elections_change_the_leadership(v: ClusterView)
    ensures
        ({
            let after = v.orchestrated();
            let voters = v.nodes.filter(
                |n: NodeView| n.status == NodeStatus::Healthy || n.status == NodeStatus::Warmup,
            );
            let changed = after.orchestrator.node != v.orchestrator.node;
            &&& voters.len() == 0 ==> after == v
            &&& voters.len() > 0 ==> {
                &&& exists|i: int|
                    0 <= i < voters.len() && (#[trigger] voters[i]).name == after.orchestrator.node
                        && after.orchestrator.url == Some(
                        url_of(voters[i].hostname, voters[i].port),
                    )
                &&& after.orchestrator.participating_nodes == voters.len() as usize
                &&& after.chronicle.cluster_size == voters.len() as usize
                &&& changed && v.orchestrator.revision < u64::MAX ==> after.orchestrator.revision
                    == v.orchestrator.revision + 1
                &&& changed && v.chronicle.term < u64::MAX ==> after.chronicle.term
                    == v.chronicle.term + 1
                &&& !changed ==> after.orchestrator.revision == v.orchestrator.revision
                    && after.chronicle.term == v.chronicle.term
                &&& after.chronicle.log == v.chronicle.log
                &&& after.chronicle.is_leader <==> after.orchestrator.node == v.self_node.name
                &&& after.orchestrator.role == OrchestratorRole::Orchestrator
                    <==> after.orchestrator.node == v.self_node.name
            }
            &&& after == (ClusterView {
                orchestrator: after.orchestrator,
                chronicle: after.chronicle,
                ..v
            })
        }),
{
    law_nodes_in_service(v);
    let voters = electorate(v.nodes, v.nodes.len() as int);
    let after = v.orchestrated();
    if voters.len() > 0 {
        let e = crate::cluster::manager::lemma_someone_is_elected(node_names(voters));
        let p = crate::cluster::orchestrator::elected_place(node_names(voters));
        assert(crate::cluster::orchestrator::is_elected(node_names(voters), p));
        assert(voters[p].name == after.orchestrator.node);
    }
    assert(after =~= ClusterView {
        orchestrator: after.orchestrator,
        chronicle: after.chronicle,
        ..v
    });
}

// ---- Membership ----

/// A node that joins is the last of the list, and the data is spread over the nodes in service, this
/// one among them if it is. The other nodes, the failover state and the groups do not change.
pub proof fn law_joining_nodes_get_their_share(v: ClusterView, node: NodeView, now: i128, i: int)
    requires
        v.valid(),
        !v.has_node(node.name),
        0 <= i < v.joined(node, now).service().len(),
    ensures
        ({
            let after = v.node_added(node, now);
            let names = v.joined(node, now).service();
            &&& after.nodes == v.nodes.push(node)
            &&& names == v.nodes.push(node).filter(
                |n: NodeView|
                    n.status == NodeStatus::Healthy || n.status == NodeStatus::Warmup || n.status
                        == NodeStatus::Unhealthy,
            ).map_values(|n: NodeView| n.name)
            &&& occurrences(owners(after.partition_map.map), names[i]) == target(
                v.partition_map.map.len(),
                names.len(),
                i,
            )
            &&& after.failover == v.failover
            &&& after.groups == v.groups
            &&& after.self_node == v.self_node
        }),
{
    let s = v.joined(node, now);
    assert(s.nodes == v.nodes.push(node));
    assert(s.valid()) by {
        let names = node_names(s.nodes);
        assert(names =~= node_names(v.nodes).push(node.name));
        assert forall|a: int, b: int| 0 <= a < names.len() && 0 <= b < names.len() && a != b implies
            names[a] != names[b] by {
            let old_names = node_names(v.nodes);
            if a < old_names.len() && b < old_names.len() {
                assert(old_names[a] != old_names[b]);
            } else if a < old_names.len() {
                assert(old_names.contains(old_names[a]));
            } else {
                assert(old_names.contains(old_names[b]));
            }
        }
    }
    law_nodes_in_service(s);
    law_service_names_are_different(s);
    law_rebalance_spreads_over_nodes(s, s.service(), now, i);
    law_elections_change_the_leadership(s.rebalanced_over(s.service(), now));
}

/// A change of membership is put into the log by the leader, under its kind.
pub proof fn law_membership_changes_are_logged(v: ClusterView, node: NodeView, name: Seq<char>, now: i128)
    requires
        v.chronicle.is_leader,
    ensures
        v.joined(node, now).chronicle.log.last().change_type == ConfigChangeType::NodeAdd,
        v.joined(node, now).chronicle.log.last().payload == node_payload(node.name),
        v.joined(node, now).chronicle.log.drop_last() == v.chronicle.log,
        v.left(name, now).chronicle.log.last().change_type == ConfigChangeType::NodeRemove,
        v.left(name, now).chronicle.log.last().payload == node_payload(name),
        v.left(name, now).chronicle.log.drop_last() == v.chronicle.log,
{
    assert(v.joined(node, now).chronicle.log.drop_last() =~= v.chronicle.log);
    assert(v.left(name, now).chronicle.log.drop_last() =~= v.chronicle.log);
}

/// A node that leaves is off the list, the others stay in their order, and nothing is left with it:
/// its data is spread over the nodes in service. It is failed over no longer, and its timer does not
/// run.
pub proof fn law_leaving_nodes_keep_nothing(v: ClusterView, name: Seq<char>, now: i128, p: int, vb: int)
    requires
        v.valid(),
        0 <= p < v.nodes.len(),
        v.nodes[p].name == name,
        v.left(name, now).service().len() > 0,
        0 <= vb < v.partition_map.map.len(),
    ensures
        ({
            let after = v.node_removed(name, now);
            &&& after.nodes == v.nodes.take(p) + v.nodes.skip(p + 1)
            &&& !after.has_node(name)
            &&& after.partition_map.map[vb].active != name
            &&& v.left(name, now).service().contains(after.partition_map.map[vb].active)
            &&& !after.failover.failed_over_nodes.contains(name)
            &&& !after.failover.timers.contains_key(name)
        }),
{
    let names = node_names(v.nodes);
    assert(names[p] == name);
    lemma_has_node(v, name);
    let q = v.node_place(name)->0;
    assert(q == p) by {
        if q != p {
            assert(names[q] != names[p]);
        }
    }
    let s = v.left(name, now);
    assert(v.nodes.remove(p) =~= v.nodes.take(p) + v.nodes.skip(p + 1));
    assert(s.nodes == v.nodes.remove(p));
    let rest = node_names(s.nodes);
    assert forall|a: int| 0 <= a < rest.len() implies rest[a] == names[if a < p {
        a
    } else {
        a + 1
    }] by {}
    assert(!rest.contains(name)) by {
        if rest.contains(name) {
            let a = choose|a: int| 0 <= a < rest.len() && rest[a] == name;
            let b = if a < p {
                a
            } else {
                a + 1
            };
            assert(names[b] == name && b != p);
        }
    }
    assert(rest.no_duplicates());
    crate::cluster::failover::law_recovered_nodes_are_back(
        v.failover,
        name,
        name.push('x'),
    );
    assert(s.failover.failed_over_nodes == v.failover.recovered(name).failed_over_nodes);
    assert(s.valid()) by {
        assert(s.failover.failed_over_nodes.no_duplicates()) by {
            crate::cluster::failover::lemma_recovered_distinct(v.failover, name);
        }
    }
    law_service_names_are_different(s);
    let serving = s.service();
    let was = owners(s.partition_map.map);
    crate::cluster::partition::lemma_new_owner_is_a_node(was, serving, vb);
    let spread = s.rebalanced_over(serving, now);
    let plain = s.partition_map.rebalanced(serving);
    assert(spread.partition_map.map[vb].active == crate::cluster::partition::new_owner(
        was,
        serving,
        vb,
    ));
    law_elections_change_the_leadership(spread);
    assert(!serving.contains(name)) by {
        law_nodes_in_service(s);
        if serving.contains(name) {
            let i = choose|i: int| 0 <= i < serving.len() && serving[i] == name;
            lemma_service_from(s.nodes, s.nodes.len() as int, i);
        }
    }
    assert(node_names(v.node_removed(name, now).nodes) == rest);
}

proof fn lemma_service_from(nodes: Seq<NodeView>, k: int, i: int)
    requires
        0 <= k <= nodes.len(),
        0 <= i < service_names(nodes, k).len(),
    ensures
        node_names(nodes).contains(service_names(nodes, k)[i]),
    decreases k,
{
    if k > 0 {
        if i < service_names(nodes, k - 1).len() {
            lemma_service_from(nodes, k - 1, i);
        } else {
            assert(node_names(nodes)[k - 1] == nodes[k - 1].name);
        }
    }
}

// ---- Signs of life ----

/// A sign of life of a node is noted with its time, and an unhealthy node is healthy again. A node
/// in any other state keeps it, and no other node changes.
pub proof fn law_signs_of_life_are_noted(v: ClusterView, name: Seq<char>, now: i128, i: int)
    requires
        v.valid(),
        0 <= i < v.nodes.len(),
    ensures
        ({
            let after = v.heard(name, now);
            let n = v.nodes[i];
            let m = after.nodes[i];
            &&& after.nodes.len() == v.nodes.len()
            &&& n.name != name ==> m == n
            &&& n.name == name ==> m.last_heartbeat == now
            &&& n.name == name && n.status == NodeStatus::Unhealthy ==> m.status
                == NodeStatus::Healthy
            &&& n.name == name && n.status != NodeStatus::Unhealthy ==> m.status == n.status
            &&& m == (NodeView { last_heartbeat: m.last_heartbeat, status: m.status, ..n })
            &&& after == (ClusterView { nodes: after.nodes, ..v })
            &&& !v.has_node(name) ==> after == v
        }),
{
    lemma_has_node(v, name);
    let names = node_names(v.nodes);
    assert(names[i] == v.nodes[i].name);
    match v.node_place(name) {
        Some(p) => {
            assert(names[p] == name);
            if i != p {
                assert(names[i] != names[p]);
            }
        },
        None => {
            assert(names.contains(names[i]));
        },
    }
    let after = v.heard(name, now);
    assert(after =~= ClusterView { nodes: after.nodes, ..v });
}

/// What a health check makes of a node: the node itself is always alive; a node that was failed over
/// stays so. Another is unhealthy after more than ten seconds of silence if it was healthy, after
/// more than thirty also if it was warming up; an unhealthy node that was heard of is healthy again.
pub proof fn law_health_checks_go_by_silence(n: NodeView, me: Seq<char>, now: i128)
    ensures
        ({
            let m = checked_node(n, me, now);
            let silence = now - n.last_heartbeat;
            let over_10 = silence >= 11_000_000_000;
            let over_30 = silence >= 31_000_000_000;
            &&& n.name == me ==> m == (NodeView { last_heartbeat: now, ..n })
            &&& n.name != me ==> m == (NodeView { status: m.status, ..n })
            &&& n.name != me && n.status == NodeStatus::Healthy ==> m.status == if over_10 {
                NodeStatus::Unhealthy
            } else {
                NodeStatus::Healthy
            }
            &&& n.name != me && n.status == NodeStatus::Warmup ==> m.status == if over_30 {
                NodeStatus::Unhealthy
            } else {
                NodeStatus::Warmup
            }
            &&& n.name != me && n.status == NodeStatus::Unhealthy ==> m.status == if over_10 {
                NodeStatus::Unhealthy
            } else {
                NodeStatus::Healthy
            }
            &&& n.status == NodeStatus::FailedOver || n.status == NodeStatus::Failed ==> m.status
                == n.status
            &&& is_silent(n, me, now) <==> n.name != me && n.status != NodeStatus::FailedOver
                && over_10
            &&& is_back(n, me, now) <==> n.name != me && n.status == NodeStatus::Unhealthy
                && !over_10
        }),
{
}

proof fn lemma_silent_names(nodes: Seq<NodeView>, me: Seq<char>, now: i128, k: int, name: Seq<char>)
    requires
        0 <= k <= nodes.len(),
    ensures
        silent_names(nodes, me, now, k).contains(name) <==> exists|i: int|
            0 <= i < k && (#[trigger] nodes[i]).name == name && is_silent(nodes[i], me, now),
        back_names(nodes, me, now, k).contains(name) <==> exists|i: int|
            0 <= i < k && (#[trigger] nodes[i]).name == name && is_back(nodes[i], me, now),
    decreases k,
{
    if k > 0 {
        lemma_silent_names(nodes, me, now, k - 1, name);
        let s0 = silent_names(nodes, me, now, k - 1);
        let s = silent_names(nodes, me, now, k);
        let b0 = back_names(nodes, me, now, k - 1);
        let b = back_names(nodes, me, now, k);
        if s0.contains(name) {
            let i = choose|i: int| 0 <= i < s0.len() && s0[i] == name;
            assert(s[i] == name);
        }
        if b0.contains(name) {
            let i = choose|i: int| 0 <= i < b0.len() && b0[i] == name;
            assert(b[i] == name);
        }
        if is_silent(nodes[k - 1], me, now) {
            assert(s[s0.len() as int] == nodes[k - 1].name);
            if s.contains(name) {
                let i = choose|i: int| 0 <= i < s.len() && s[i] == name;
                if i < s0.len() {
                    assert(s0[i] == name);
                }
            }
        }
        if is_back(nodes[k - 1], me, now) {
            assert(b[b0.len() as int] == nodes[k - 1].name);
            if b.contains(name) {
                let i = choose|i: int| 0 <= i < b.len() && b[i] == name;
                if i < b0.len() {
                    assert(b0[i] == name);
                }
            }
        }
    }
}

proof fn lemma_timers_cleared(f: FailoverView, names: Seq<Seq<char>>, k: int, name: Seq<char>)
    requires
        0 <= k <= names.len(),
    ensures
        names.take(k).contains(name) ==> !timers_cleared(f, names, k).timers.contains_key(name),
        !names.take(k).contains(name) ==> timers_cleared(f, names, k).timers.contains_key(name)
            == f.timers.contains_key(name),
        !names.take(k).contains(name) && f.timers.contains_key(name) ==> timers_cleared(
            f,
            names,
            k,
        ).timers[name] == f.timers[name],
    decreases k,
{
    if k > 0 {
        lemma_timers_cleared(f, names, k - 1, name);
        lemma_take_step(names, k, name);
    } else {
        assert(names.take(0) =~= Seq::<Seq<char>>::empty());
    }
}

proof fn lemma_take_step(names: Seq<Seq<char>>, k: int, name: Seq<char>)
    requires
        0 < k <= names.len(),
    ensures
        names.take(k).contains(name) <==> names.take(k - 1).contains(name) || names[k - 1] == name,
{
    let a = names.take(k);
    let b = names.take(k - 1);
    assert(a =~= b.push(names[k - 1]));
    if b.contains(name) {
        let i = choose|i: int| 0 <= i < b.len() && b[i] == name;
        assert(a[i] == name);
    }
    if names[k - 1] == name {
        assert(a[k - 1] == name);
    }
    if a.contains(name) {
        let i = choose|i: int| 0 <= i < a.len() && a[i] == name;
        if i < k - 1 {
            assert(b[i] == name);
        }
    }
}

proof fn lemma_timers_started(f: FailoverView, names: Seq<Seq<char>>, now: i128, k: int, name: Seq<char>)
    requires
        0 <= k <= names.len(),
    ensures
        ({
            let g = timers_started(f, names, now, k);
            &&& g.timers.contains_key(name) <==> f.timers.contains_key(name) || names.take(
                k,
            ).contains(name)
            &&& f.timers.contains_key(name) ==> g.timers[name] == f.timers[name]
            &&& !f.timers.contains_key(name) && names.take(k).contains(name) ==> g.timers[name]
                == now
        }),
    decreases k,
{
    if k > 0 {
        lemma_timers_started(f, names, now, k - 1, name);
        lemma_take_step(names, k, name);
    } else {
        assert(names.take(0) =~= Seq::<Seq<char>>::empty());
    }
}

/// A health check starts the timer of a node that is silent, if it does not run yet, and stops that of
/// a node that is back; other timers it leaves alone. Every node gets the state that its silence
/// calls for.
pub proof fn law_health_checks_keep_the_timers(v: ClusterView, now: i128, i: int)
    requires
        v.valid(),
        0 <= i < v.nodes.len(),
    ensures
        ({
            let after = v.examined(now);
            let n = v.nodes[i];
            let me = v.self_node.name;
            let ran = v.failover.timers.contains_key(n.name);
            &&& after.nodes.len() == v.nodes.len()
            &&& after.nodes[i] == checked_node(n, me, now)
            &&& is_silent(n, me, now) ==> after.failover.timers.contains_key(n.name)
            &&& is_silent(n, me, now) && ran ==> after.failover.timers[n.name]
                == v.failover.timers[n.name]
            &&& is_silent(n, me, now) && !ran ==> after.failover.timers[n.name] == now
            &&& is_back(n, me, now) ==> !after.failover.timers.contains_key(n.name)
            &&& !is_silent(n, me, now) && !is_back(n, me, now) ==> (
            after.failover.timers.contains_key(n.name) == ran && (ran
                ==> after.failover.timers[n.name] == v.failover.timers[n.name]))
            &&& after.partition_map == v.partition_map
            &&& after.orchestrator == v.orchestrator
            &&& after.chronicle == v.chronicle
        }),
{
    let n = v.nodes[i];
    let me = v.self_node.name;
    let k = v.nodes.len() as int;
    let back = v.back(now);
    let silent = v.silent(now);
    lemma_silent_names(v.nodes, me, now, k, n.name);
    let names = node_names(v.nodes);
    assert forall|j: int| 0 <= j < k && (#[trigger] v.nodes[j]).name == n.name implies j == i by {
        if j != i {
            assert(names[j] != names[i]);
        }
    }
    lemma_timers_cleared(v.failover, back, back.len() as int, n.name);
    lemma_timers_started(
        timers_cleared(v.failover, back, back.len() as int),
        silent,
        now,
        silent.len() as int,
        n.name,
    );
    assert(back.take(back.len() as int) =~= back);
    assert(silent.take(silent.len() as int) =~= silent);
}

/// A silent node is failed over exactly where its timer has run for the configured time, automatic
/// failover is enabled and within its quota, no cooldown runs, enough nodes are healthy, and each of
/// its vBuckets has a replica, unless data may be lost.
pub proof fn law_only_dead_nodes_are_failed_over(v: ClusterView, name: Seq<char>, now: i128)
    requires
        v.nodes.len() <= usize::MAX,
    ensures
        ({
            let f = v.failover;
            let healthy = v.nodes.filter(|n: NodeView| n.status == NodeStatus::Healthy).len();
            let safe = forall|vb: int|
                0 <= vb < v.partition_map.map.len() && (#[trigger] v.partition_map.map[vb]).active
                    == name ==> v.partition_map.map[vb].replicas.len() > 0;
            v.dooms(name, now) <==> f.timeout_reached(name, now) && f.config.enabled
                && f.auto_failover_count < f.config.max_count && !f.cooling_down(now) && healthy
                >= f.config.min_cluster_size && (f.config.failover_on_data_loss || safe)
        }),
{
    law_nodes_in_service(v);
    lemma_healthy_bound(v.nodes, v.nodes.len() as int);
    let map = v.partition_map.map;
    if loses_data(map, name) {
        let vb = choose|vb: int|
            0 <= vb < map.len() && (#[trigger] map[vb]).active == name && map[vb].replicas.len() == 0;
        assert(map[vb].active == name);
    }
}

proof fn lemma_healthy_bound(nodes: Seq<NodeView>, k: int)
    requires
        0 <= k,
    ensures
        healthy_count(nodes, k) <= k,
    decreases k,
{
    if k > 0 {
        lemma_healthy_bound(nodes, k - 1);
    }
}

// ---- Failover ----

proof fn lemma_without_is_filter(list: Seq<Seq<char>>, name: Seq<char>, k: int)
    requires
        0 <= k <= list.len(),
    ensures
        crate::cluster::manager::without(list, name, k) == list.take(k).filter(
            |x: Seq<char>| x != name,
        ),
    decreases k,
{
    reveal(Seq::filter);
    if k > 0 {
        lemma_without_is_filter(list, name, k - 1);
        assert(list.take(k).drop_last() =~= list.take(k - 1));
    } else {
        assert(list.take(0) =~= Seq::<Seq<char>>::empty());
    }
}

/// A list without a name has all its other members, in their order.
pub proof fn law_taking_a_name_out(list: Seq<Seq<char>>, name: Seq<char>)
    ensures
        without_name(list, name) == list.filter(|x: Seq<char>| x != name),
{
    lemma_without_is_filter(list, name, list.len() as int);
    assert(list.take(list.len() as int) =~= list);
}

/// When a node fails, the first replica of each of its vBuckets takes over and is no replica of it
/// any more; a vBucket without replicas keeps its owner. Every other vBucket loses the node as a
/// replica and is else left alone.
pub proof fn law_replicas_take_over(entry: OwnershipView, failed: Seq<char>)
    ensures
        ({
            let after = promoted_entry(entry, failed);
            let others = entry.replicas.filter(|x: Seq<char>| x != failed);
            let hit = entry.active == failed && entry.replicas.len() > 0;
            let first = entry.replicas[0];
            &&& hit ==> after.active == first
            &&& hit ==> after.replicas == entry.replicas.filter(
                |x: Seq<char>| x != first,
            ).filter(|x: Seq<char>| x != failed)
            &&& !hit ==> after.active == entry.active
            &&& !hit ==> after.replicas == others
        }),
{
    law_taking_a_name_out(entry.replicas, failed);
    if entry.replicas.len() > 0 {
        law_taking_a_name_out(entry.replicas, entry.replicas[0]);
        law_taking_a_name_out(without_name(entry.replicas, entry.replicas[0]), failed);
    }
}

proof fn lemma_counts(map: Seq<OwnershipView>, node: Seq<char>, k: int)
    requires
        0 <= k <= map.len(),
    ensures
        owned_count(map, node, k) == map.take(k).filter(|e: OwnershipView| e.active == node).len(),
        covered_count(map, node, k) == map.take(k).filter(
            |e: OwnershipView| e.active == node && e.replicas.len() > 0,
        ).len(),
    decreases k,
{
    reveal(Seq::filter);
    if k > 0 {
        lemma_counts(map, node, k - 1);
        assert(map.take(k).drop_last() =~= map.take(k - 1));
    }
}

/// The event of a failover counts the vBuckets that the node owned, and those of them that had a
/// replica to take over.
pub proof fn law_failover_events_count_the_vbuckets(
    v: ClusterView,
    name: Seq<char>,
    kind: FailoverType,
    reason: Seq<char>,
    id: Seq<char>,
    now: i128,
)
    requires
        v.partition_map.map.len() <= 0x1_0000,
    ensures
        ({
            let e = v.failover_event(name, kind, reason, id, now);
            let map = v.partition_map.map;
            &&& e.vbuckets_affected == map.filter(|o: OwnershipView| o.active == name).len()
            &&& e.replicas_promoted == map.filter(
                |o: OwnershipView| o.active == name && o.replicas.len() > 0,
            ).len()
            &&& e.node_name == name
            &&& e.failover_type == kind
            &&& e.reason == reason
            &&& e.id == id
            &&& e.timestamp == now
            &&& e.success
        }),
{
    let map = v.partition_map.map;
    lemma_counts(map, name, map.len() as int);
    assert(map.take(map.len() as int) =~= map);
    lemma_owned_bound(map, name, map.len() as int);
}

proof fn lemma_owned_bound(map: Seq<OwnershipView>, node: Seq<char>, k: int)
    requires
        0 <= k,
    ensures
        covered_count(map, node, k) <= owned_count(map, node, k) <= k,
    decreases k,
{
    if k > 0 {
        lemma_owned_bound(map, node, k - 1);
    }
}

/// After a failover the node is marked as failed over and no other node changes; it is recorded, and
/// counts against the quota exactly where it was automatic.
pub proof fn law_failovers_mark_the_node(
    v: ClusterView,
    name: Seq<char>,
    kind: FailoverType,
    reason: Seq<char>,
    id: Seq<char>,
    now: i128,
    i: int,
)
    requires
        v.valid(),
        0 <= i < v.nodes.len(),
        v.failover.auto_failover_count < u32::MAX,
    ensures
        ({
            let after = v.failed_over(name, kind, reason, id, now);
            let automatic = kind == FailoverType::Automatic;
            &&& after.nodes.len() == v.nodes.len()
            &&& v.nodes[i].name == name ==> after.nodes[i] == (NodeView {
                status: NodeStatus::FailedOver,
                ..v.nodes[i]
            })
            &&& v.nodes[i].name != name ==> after.nodes[i] == v.nodes[i]
            &&& after.failover.failed_over_nodes.contains(name)
            &&& automatic ==> after.failover.auto_failover_count == v.failover.auto_failover_count
                + 1
            &&& automatic ==> after.failover.last_auto_failover == Some(now)
            &&& !automatic ==> after.failover.auto_failover_count == v.failover.auto_failover_count
            &&& !automatic ==> after.failover.last_auto_failover == v.failover.last_auto_failover
            &&& after.failover.events.last() == v.failover_event(name, kind, reason, id, now)
            &&& after.groups == v.groups
        }),
{
    lemma_has_node(v, name);
    let names = node_names(v.nodes);
    assert(names[i] == v.nodes[i].name);
    match v.node_place(name) {
        Some(p) => {
            assert(names[p] == name);
            if i != p {
                assert(names[i] != names[p]);
            }
        },
        None => {
            assert(names.contains(names[i]));
        },
    }
    let event = v.failover_event(name, kind, reason, id, now);
    crate::cluster::failover::law_failovers_are_recorded(
        v.failover,
        name,
        event,
        name.push('x'),
    );
    let cut = v.cut_off(name);
    let spread = if event.rebalance_triggered {
        cut.rebalanced_over(cut.service(), now)
    } else {
        cut
    };
    assert(spread.failover == v.failover);
    assert(spread.nodes == cut.nodes);
}

/// A node that recovers is healthy and heard of, is failed over no longer, and gets its share of the
/// data again.
pub proof fn law_recovered_nodes_get_their_share(
    v: ClusterView,
    name: Seq<char>,
    now: i128,
    p: int,
    i: int,
)
    requires
        v.valid(),
        0 <= p < v.nodes.len(),
        v.nodes[p].name == name,
        0 <= i < v.revived(name, now).service().len(),
    ensures
        ({
            let after = v.node_recovered(name, now);
            let names = v.revived(name, now).service();
            &&& after.nodes.len() == v.nodes.len()
            &&& after.nodes[p] == (NodeView {
                status: NodeStatus::Healthy,
                last_heartbeat: now,
                ..v.nodes[p]
            })
            &&& forall|k: int|
                0 <= k < v.nodes.len() && k != p ==> #[trigger] after.nodes[k] == v.nodes[k]
            &&& !after.failover.failed_over_nodes.contains(name)
            &&& names.contains(name)
            &&& occurrences(owners(after.partition_map.map), names[i]) == target(
                v.partition_map.map.len(),
                names.len(),
                i,
            )
        }),
{
    let names = node_names(v.nodes);
    assert(names[p] == name);
    lemma_has_node(v, name);
    let q = v.node_place(name)->0;
    if q != p {
        assert(names[q] != names[p]);
    }
    let s = v.revived(name, now);
    assert(node_names(s.nodes) =~= names);
    crate::cluster::failover::law_recovered_nodes_are_back(v.failover, name, name.push('x'));
    crate::cluster::failover::lemma_recovered_distinct(v.failover, name);
    assert(s.valid());
    law_service_names_are_different(s);
    law_rebalance_spreads_over_nodes(s, s.service(), now, i);
    law_elections_change_the_leadership(s.rebalanced_over(s.service(), now));
    lemma_in_service(s.nodes, s.nodes.len() as int, p);
}

proof fn lemma_in_service(nodes: Seq<NodeView>, k: int, p: int)
    requires
        0 <= p < k <= nodes.len(),
        nodes[p].status == NodeStatus::Healthy,
    ensures
        service_names(nodes, k).contains(nodes[p].name),
    decreases k,
{
    let all = service_names(nodes, k);
    if p < k - 1 {
        lemma_in_service(nodes, k - 1, p);
        let rest = service_names(nodes, k - 1);
        let i = choose|i: int| 0 <= i < rest.len() && rest[i] == nodes[p].name;
        assert(all[i] == nodes[p].name);
    } else {
        assert(all[service_names(nodes, k - 1).len() as int] == nodes[p].name);
    }
}

// ---- Transfers ----

proof fn lemma_finished(pending: Seq<TransferView>, k: int)
    requires
        0 <= k <= pending.len(),
    ensures
        finished_count(pending, false, k) == pending.take(k).filter(
            |t: TransferView| t.status == TransferStatus::Completed,
        ).len(),
        finished_count(pending, true, k) == pending.take(k).filter(
            |t: TransferView|
                t.status == TransferStatus::Completed || t.status == TransferStatus::Failed,
        ).len(),
        waiting(pending, k) == pending.take(k).filter(
            |t: TransferView| t.status == TransferStatus::Pending,
        ),
        finished_count(pending, false, k) <= k,
        finished_count(pending, true, k) <= k,
    decreases k,
{
    reveal(Seq::filter);
    if k > 0 {
        lemma_finished(pending, k - 1);
        assert(pending.take(k).drop_last() =~= pending.take(k - 1));
    } else {
        assert(pending.take(0) =~= Seq::<TransferView>::empty());
    }
}

proof fn lemma_places(pending: Seq<TransferView>, vb: u16, i: int, p: int)
    requires
        0 <= i <= p < pending.len(),
        pending[p].vbucket_id == vb,
    ensures
        (forall|k: int| i <= k < p ==> (#[trigger] pending[k]).vbucket_id != vb) ==> transfer_place(
            pending,
            vb,
            i,
        ) == Some(p),
        pending[p].status == TransferStatus::Pending && (forall|k: int|
            i <= k < p ==> (#[trigger] pending[k]).vbucket_id != vb || pending[k].status
                != TransferStatus::Pending) ==> waiting_place(pending, vb, i) == Some(p),
    decreases p - i,
{
    if i < p {
        lemma_places(pending, vb, i + 1, p);
    }
}

/// A transfer that is completed is marked so: the first of its vBucket, and no other. The progress
/// counts those completed, and the rebalance is done exactly when they are all.
pub proof fn law_completed_transfers_are_counted(v: ClusterView, vb: u16, p: int)
    requires
        0 <= p < v.pending.len() <= usize::MAX,
        v.pending[p].vbucket_id == vb,
        forall|k: int| 0 <= k < p ==> (#[trigger] v.pending[k]).vbucket_id != vb,
    ensures
        ({
            let after = v.transfer_completed(vb);
            let done = after.pending.filter(
                |t: TransferView| t.status == TransferStatus::Completed,
            ).len();
            &&& after.pending.len() == v.pending.len()
            &&& after.pending[p] == (TransferView {
                status: TransferStatus::Completed,
                ..v.pending[p]
            })
            &&& forall|k: int|
                0 <= k < v.pending.len() && k != p ==> #[trigger] after.pending[k] == v.pending[k]
            &&& after.rebalance_status.transfers_completed == done
            &&& done == v.pending.len() ==> !after.rebalance_status.in_progress
                && after.rebalance_status.progress == Progress::Done
            &&& done < v.pending.len() ==> after.rebalance_status.in_progress
                == v.rebalance_status.in_progress && after.rebalance_status.progress
                == (Progress::Partial { completed: done as usize, total: v.pending.len() as usize })
            &&& after.partition_map == v.partition_map
            &&& after.nodes == v.nodes
        }),
{
    lemma_places(v.pending, vb, 0, p);
    let pending = v.transfer_completed(vb).pending;
    lemma_finished(pending, pending.len() as int);
    assert(pending.take(pending.len() as int) =~= pending);
}

/// A transfer that failed is marked so: the first of its vBucket that still waits, and no other. The
/// progress then counts failed ones with those completed.
pub proof fn law_failed_transfers_are_counted(v: ClusterView, vb: u16, p: int)
    requires
        0 <= p < v.pending.len() <= usize::MAX,
        v.pending[p].vbucket_id == vb,
        v.pending[p].status == TransferStatus::Pending,
        forall|k: int|
            0 <= k < p ==> (#[trigger] v.pending[k]).vbucket_id != vb || v.pending[k].status
                != TransferStatus::Pending,
    ensures
        ({
            let after = v.transfer_failed(vb);
            let done = after.pending.filter(
                |t: TransferView|
                    t.status == TransferStatus::Completed || t.status == TransferStatus::Failed,
            ).len();
            &&& after.pending.len() == v.pending.len()
            &&& after.pending[p] == (TransferView {
                status: TransferStatus::Failed,
                ..v.pending[p]
            })
            &&& forall|k: int|
                0 <= k < v.pending.len() && k != p ==> #[trigger] after.pending[k] == v.pending[k]
            &&& after.rebalance_status.transfers_completed == done
            &&& done == v.pending.len() ==> !after.rebalance_status.in_progress
                && after.rebalance_status.progress == Progress::Done
            &&& after.partition_map == v.partition_map
        }),
{
    lemma_places(v.pending, vb, 0, p);
    let pending = v.transfer_failed(vb).pending;
    lemma_finished(pending, pending.len() as int);
    assert(pending.take(pending.len() as int) =~= pending);
}

/// The orchestrator works on the transfers that wait, thirty-two at most at a time and the first ones
/// first; no other node works on any.
pub proof fn law_transfers_are_worked_on_in_order(v: ClusterView)
    ensures
        ({
            let wait = v.pending.filter(|t: TransferView| t.status == TransferStatus::Pending);
            &&& v.orchestrator.role != OrchestratorRole::Orchestrator ==> v.batch().len() == 0
            &&& v.orchestrator.role == OrchestratorRole::Orchestrator && wait.len() <= 32
                ==> v.batch() == wait
            &&& v.orchestrator.role == OrchestratorRole::Orchestrator && wait.len() > 32
                ==> v.batch() == wait.take(32)
        }),
{
    lemma_finished(v.pending, v.pending.len() as int);
    assert(v.pending.take(v.pending.len() as int) =~= v.pending);
}

/// A transfer goes from its source to its target: sent from here where this node is the source, else
/// fetched first. It is given up where a node is not known or not well.
pub proof fn law_transfers_go_from_source_to_target(
    v: ClusterView,
    t: TransferView,
    plan: TransferPlan,
    f: int,
    g: int,
)
    requires
        v.valid(),
        v.plans(t, plan),
        0 <= f < v.nodes.len(),
        0 <= g < v.nodes.len(),
        v.nodes[f].name == t.from_node,
        v.nodes[g].name == t.to_node,
    ensures
        ({
            let well = |s: NodeStatus| s == NodeStatus::Healthy || s == NodeStatus::Warmup;
            let fine = well(v.nodes[f].status) && well(v.nodes[g].status);
            let source = url_of(v.nodes[f].hostname, v.nodes[f].port);
            let goal = url_of(v.nodes[g].hostname, v.nodes[g].port);
            &&& plan is GiveUp <==> !fine
            &&& plan is Export ==> t.from_node == v.self_node.name && plan->Export_target_url@ == goal
            &&& plan is Relay ==> t.from_node != v.self_node.name && plan->source_url@ == source
                && plan->Relay_target_url@ == goal
        }),
{
    let names = node_names(v.nodes);
    assert(names[f] == t.from_node);
    assert(names[g] == t.to_node);
    lemma_has_node(v, t.from_node);
    lemma_has_node(v, t.to_node);
    let a = v.node_place(t.from_node)->0;
    let b = v.node_place(t.to_node)->0;
    if a != f {
        assert(names[a] != names[f]);
    }
    if b != g {
        assert(names[b] != names[g]);
    }
}

/// The address of a node is made of its host and its port.
pub proof fn law_addresses_are_host_and_port(v: ClusterView, i: int)
    requires
        v.valid(),
        0 <= i < v.nodes.len(),
    ensures
        v.address(v.nodes[i].name) == "http://"@ + v.nodes[i].hostname + ":"@ + dec(
            v.nodes[i].port as nat,
        ),
{
    let names = node_names(v.nodes);
    assert(names[i] == v.nodes[i].name);
    lemma_has_node(v, v.nodes[i].name);
    let a = v.node_place(v.nodes[i].name)->0;
    if a != i {
        assert(names[a] != names[i]);
    }
}

/// A reply reports success exactly where it is a status from two hundred on and below three hundred.
pub proof fn law_success_is_in_the_two_hundreds(code: u16)
    ensures
        succeeded(Reply::Status(code)) <==> code / 100 == 2,
        !succeeded(Reply::Unreachable),
{
}

proof fn lemma_remote(nodes: Seq<NodeView>, me: Seq<char>, k: int)
    requires
        0 <= k <= nodes.len(),
    ensures
        remote_nodes(nodes, me, k) == nodes.take(k).filter(
            |n: NodeView| n.name != me && n.status != NodeStatus::FailedOver,
        ),
    decreases k,
{
    reveal(Seq::filter);
    if k > 0 {
        lemma_remote(nodes, me, k - 1);
        assert(nodes.take(k).drop_last() =~= nodes.take(k - 1));
    } else {
        assert(nodes.take(0) =~= Seq::<NodeView>::empty());
    }
}

/// The nodes that are pinged are all others that were not failed over.
pub proof fn law_other_nodes_are_pinged(v: ClusterView)
    ensures
        remote_nodes(v.nodes, v.self_node.name, v.nodes.len() as int) == v.nodes.filter(
            |n: NodeView| n.name != v.self_node.name && n.status != NodeStatus::FailedOver,
        ),
{
    lemma_remote(v.nodes, v.self_node.name, v.nodes.len() as int);
    assert(v.nodes.take(v.nodes.len() as int) =~= v.nodes);
}

// ---- Server groups ----

/// A new group is empty and the last; the others stay.
pub proof fn law_new_groups_are_empty(v: ClusterView, name: Seq<char>, uuid: Seq<char>, now: i128)
    ensures
        ({
            let after = v.group_created(name, uuid, now);
            &&& after.groups.drop_last() == v.groups
            &&& after.groups.last() == (GroupView { name, uuid, nodes: Seq::empty() })
            &&& after.nodes == v.nodes
            &&& v.chronicle.is_leader ==> after.chronicle.log.last().change_type
                == ConfigChangeType::ServerGroupAdd
        }),
{
    assert(v.group_created(name, uuid, now).groups.drop_last() =~= v.groups);
}

/// A node that is moved is then in the new group, in its list as the last, and in no other list; the
/// other nodes stay where they were.
pub proof fn law_moved_nodes_are_in_one_group(
    v: ClusterView,
    node: Seq<char>,
    group: Seq<char>,
    p: int,
    g: int,
    i: int,
)
    requires
        v.valid(),
        0 <= p < v.nodes.len(),
        v.nodes[p].name == node,
        0 <= g < v.groups.len(),
        v.groups[g].name == group,
        0 <= i < v.groups.len(),
    ensures
        ({
            let after = v.regrouped(node, group);
            let rest = v.groups[i].nodes.filter(|x: Seq<char>| x != node);
            &&& after.nodes[p] == (NodeView { server_group: group, ..v.nodes[p] })
            &&& forall|k: int|
                0 <= k < v.nodes.len() && k != p ==> #[trigger] after.nodes[k] == v.nodes[k]
            &&& after.groups.len() == v.groups.len()
            &&& after.groups[i].name == v.groups[i].name
            &&& after.groups[i].uuid == v.groups[i].uuid
            &&& i == g ==> after.groups[i].nodes == rest.push(node)
            &&& i != g ==> after.groups[i].nodes == rest
        }),
{
    let names = node_names(v.nodes);
    assert(names[p] == node);
    lemma_has_node(v, node);
    let q = v.node_place(node)->0;
    if q != p {
        assert(names[q] != names[p]);
    }
    let gs = crate::cluster::manager::group_names(v.groups);
    assert(gs[g] == group);
    lemma_group_place(v, group, g);
    law_taking_a_name_out(v.groups[i].nodes, node);
}

proof fn lemma_first_place(list: Seq<Seq<char>>, name: Seq<char>, i: int, p: int)
    requires
        0 <= i <= p < list.len(),
        list[p] == name,
        list.no_duplicates(),
    ensures
        crate::cluster::failover::place_of(list, name, i) == Some(p),
    decreases p - i,
{
    if i < p {
        assert(list[i] != list[p]);
        lemma_first_place(list, name, i + 1, p);
    }
}

proof fn lemma_group_place(v: ClusterView, group: Seq<char>, g: int)
    requires
        v.valid(),
        0 <= g < v.groups.len(),
        v.groups[g].name == group,
    ensures
        v.group_place(group) == Some(g),
{
    let gs = crate::cluster::manager::group_names(v.groups);
    assert(gs[g] == group);
    lemma_first_place(gs, group, 0, g);
}

// ---- Laws ----

// ---- Refusals ----

/// A failover is refused only of the node itself, of a node that is not there and, where it is
/// graceful, of one that was failed over; the error says which.
pub proof fn law_refusals_tell_why(v: ClusterView, name: Seq<char>, e: NosqlError)
    ensures
        v.refuses_hard(name, e) ==> name == v.self_node.name || !v.has_node(name),
        v.refuses_hard(name, e) && name == v.self_node.name ==> e is InvalidRequest
            && e->InvalidRequest_0@ == "Cannot failover self node"@,
        v.refuses_hard(name, e) && name != v.self_node.name ==> e is NodeNotFound && e->NodeNotFound_0@
            == name,
        v.refuses_graceful(name, e) && name != v.self_node.name && v.has_node(name)
            ==> v.failover.failed_over_nodes.contains(name) && e is InvalidRequest
            && e->InvalidRequest_0@ == "Node '"@ + name + "' is already in failover state"@,
        v.refuses_graceful(name, e) && (name == v.self_node.name || !v.has_node(name))
            ==> v.refuses_hard(name, e),
{
}

/// A node is not taken back that is not there, or that was never out of service; the error tells the
/// state it is in.
pub proof fn law_only_lost_nodes_are_taken_back(v: ClusterView, name: Seq<char>, e: NosqlError, i: int)
    requires
        v.valid(),
        v.refuses_recovery(name, e),
    ensures
        !v.has_node(name) ==> e is NodeNotFound && e->NodeNotFound_0@ == name,
        0 <= i < v.nodes.len() && v.nodes[i].name == name ==> v.nodes[i].status != NodeStatus::Failed
            && v.nodes[i].status != NodeStatus::FailedOver && e is InvalidRequest
            && e->InvalidRequest_0@ == "Node '"@ + name
            + "' is not in failed/failedover state (current: "@ + match v.nodes[i].status {
            NodeStatus::Healthy => "Healthy"@,
            NodeStatus::Warmup => "Warmup"@,
            NodeStatus::Unhealthy => "Unhealthy"@,
            NodeStatus::Failed => "Failed"@,
            NodeStatus::FailedOver => "FailedOver"@,
        } + ")"@,
{
    lemma_has_node(v, name);
    if 0 <= i < v.nodes.len() && v.nodes[i].name == name {
        let names = node_names(v.nodes);
        assert(names[i] == name);
        assert(names.contains(name));
        let p = v.node_place(name)->0;
        assert(names[p] == name);
    }
}

/// After a round of pings those nodes have been heard of that answered, and no others.
pub proof fn law_answers_are_signs_of_life(
    v: ClusterView,
    answers: Seq<(String, bool)>,
    now: i128,
    i: int,
)
    requires
        v.valid(),
        0 <= i < v.nodes.len(),
    ensures
        ({
            let after = v.answered(answers, now, answers.len() as int);
            let alive = exists|k: int|
                0 <= k < answers.len() && (#[trigger] answers[k]).1 && answers[k].0@
                    == v.nodes[i].name;
            &&& after.nodes.len() == v.nodes.len()
            &&& alive ==> after.nodes[i].last_heartbeat == now
            &&& alive && v.nodes[i].status == NodeStatus::Unhealthy ==> after.nodes[i].status
                == NodeStatus::Healthy
            &&& alive && v.nodes[i].status != NodeStatus::Unhealthy ==> after.nodes[i].status
                == v.nodes[i].status
            &&& !alive ==> after.nodes[i] == v.nodes[i]
        }),
{
    lemma_answered(v, answers, now, answers.len() as int, i);
}

proof fn lemma_answered(
    v: ClusterView,
    answers: Seq<(String, bool)>,
    now: i128,
    k: int,
    i: int,
)
    requires
        v.valid(),
        0 <= i < v.nodes.len(),
        0 <= k <= answers.len(),
    ensures
        ({
            let after = v.answered(answers, now, k);
            let alive = exists|j: int|
                0 <= j < k && (#[trigger] answers[j]).1 && answers[j].0@ == v.nodes[i].name;
            &&& after.valid()
            &&& node_names(after.nodes) == node_names(v.nodes)
            &&& after.nodes.len() == v.nodes.len()
            &&& alive ==> after.nodes[i].last_heartbeat == now
            &&& alive && v.nodes[i].status == NodeStatus::Unhealthy ==> after.nodes[i].status
                == NodeStatus::Healthy
            &&& alive && v.nodes[i].status != NodeStatus::Unhealthy ==> after.nodes[i].status
                == v.nodes[i].status
            &&& !alive ==> after.nodes[i] == v.nodes[i]
        }),
    decreases k,
{
    if k > 0 {
        lemma_answered(v, answers, now, k - 1, i);
        let before = v.answered(answers, now, k - 1);
        let name = answers[k - 1].0@;
        assert(node_names(before.nodes)[i] == before.nodes[i].name);
        assert(node_names(v.nodes)[i] == v.nodes[i].name);
        if answers[k - 1].1 {
            law_signs_of_life_are_noted(before, name, now, i);
            let after = before.heard(name, now);
            lemma_has_node(before, name);
            assert(node_names(after.nodes) =~= node_names(before.nodes));
            if name == v.nodes[i].name {
                assert(answers[k - 1].1 && answers[k - 1].0@ == v.nodes[i].name);
            }
        }
        let was = exists|j: int|
            0 <= j < k - 1 && (#[trigger] answers[j]).1 && answers[j].0@ == v.nodes[i].name;
        let is = exists|j: int|
            0 <= j < k && (#[trigger] answers[j]).1 && answers[j].0@ == v.nodes[i].name;
        if is && !was {
            let j = choose|j: int|
                0 <= j < k && (#[trigger] answers[j]).1 && answers[j].0@ == v.nodes[i].name;
            assert(j == k - 1);
        }
    }
}

/// A cluster starts with one healthy node, which leads it, owns every vBucket and is in the default
/// group.
pub proof fn law_clusters_start_with_one_node(
    config: ServerConfig,
    uuid: Seq<char>,
    group: Seq<char>,
    now: i128,
    vb: int,
)
    ensures
        ({
            let v = ClusterView::alone(&config, uuid, group, now);
            &&& v.nodes.len() == 1
            &&& v.nodes[0] == v.self_node
            &&& v.self_node.name == config.node_name@
            &&& v.self_node.hostname == config.host@
            &&& v.self_node.port == config.port
            &&& v.self_node.status == NodeStatus::Healthy
            &&& v.cluster_uuid == uuid
            &&& v.partition_map.map.len() == config.num_vbuckets
            &&& 0 <= vb < config.num_vbuckets ==> v.partition_map.map[vb].active == config.node_name@
                && v.partition_map.map[vb].replicas.len() == 0
            &&& v.orchestrator.node == config.node_name@
            &&& v.orchestrator.role == OrchestratorRole::Orchestrator
            &&& v.chronicle.is_leader
            &&& v.chronicle.log.len() == 0
            &&& v.chronicle.commit_index == 0
            &&& v.pending.len() == 0
            &&& !v.rebalance_status.in_progress
            &&& v.failover.failed_over_nodes.len() == 0
            &&& v.groups.len() == 1
            &&& v.groups[0].name == "Group 1"@
            &&& v.groups[0].uuid == group
            &&& v.groups[0].nodes =~= seq![config.node_name@]
            &&& v.cluster_encryption == config.cluster_encryption
        }),
{
    let v = ClusterView::alone(&config, uuid, group, now);
    let names = seq![config.node_name@];
    if 0 <= vb < config.num_vbuckets {
        law_replicas_are_no_more_than_asked(names, 0, 1);
        assert(vb % 1 == 0);
    }
}

} // verus!
