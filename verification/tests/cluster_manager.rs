use oxidedb::cluster::failover::{FailoverConfig, FailoverManager, FailoverType};
use oxidedb::cluster::manager::{
    after_export, after_local_export, after_send, export_url, transfer_url, BucketMove,
    ExportOutcome, Reply, TransferPlan,
};
use oxidedb::cluster::node::{ClusterNode, NodeStatus};
use oxidedb::cluster::ClusterManager;
use oxidedb::config::{CliArgs, ServerConfig};
use oxidedb::error::NosqlError;

const NOW: i128 = 1_700_000_000_000_000_000;
const SECOND: i128 = 1_000_000_000;

fn node(name: &str, port: u16, now: i128) -> ClusterNode {
    ClusterNode::new_self_at(name.to_string(), "10.0.0.1".to_string(), port, now)
}

fn manager() -> ClusterManager {
    let mut args = CliArgs::default();
    args.num_vbuckets = 16;
    let config: ServerConfig = args.into();
    ClusterManager::new_at(&config, "uuid".to_string(), "group".to_string(), NOW)
}

fn cluster(n: usize) -> ClusterManager {
    let mut m = manager();
    for i in 2..=n {
        m.add_node_at(node(&format!("node-{}", i), 8090 + i as u16, NOW), NOW).unwrap();
    }
    m
}

fn owned(m: &ClusterManager, name: &str) -> usize {
    m.get_partition_map().active_vbuckets_for(name).len()
}

#[test]
fn a_new_cluster_owns_everything() {
    let m = manager();
    assert!(m.is_single_node());
    assert!(m.is_orchestrator());
    assert_eq!(owned(&m, "node-1"), 16);
    assert!(m.is_vbucket_local(15));
    assert!(!m.is_vbucket_local(16));
}

#[test]
fn nodes_join_and_leave() {
    let mut m = cluster(2);
    assert_eq!(owned(&m, "node-1"), 8);
    assert_eq!(owned(&m, "node-2"), 8);
    assert_eq!(m.get_pending_transfers().len(), 8);
    match m.add_node_at(node("node-2", 1, NOW), NOW) {
        Err(NosqlError::NodeAlreadyExists(n)) => assert_eq!(n, "node-2"),
        other => panic!("{:?}", other.is_ok()),
    }
    m.remove_node_at("node-2", NOW).unwrap();
    assert_eq!(owned(&m, "node-1"), 16);
    assert!(m.remove_node_at("node-2", NOW).is_err());
    assert!(m.remove_node_at("node-1", NOW).is_err());
}

#[test]
fn failover_promotes_a_replica_and_recovery_undoes_it() {
    let mut m = cluster(3);
    let before = m.get_partition_map();
    let event = m.hard_failover_at("node-3", "id".to_string(), NOW).unwrap();
    assert_eq!(event.failover_type, FailoverType::Hard);
    assert_eq!(event.vbuckets_affected, before.active_vbuckets_for("node-3").len());
    assert_eq!(owned(&m, "node-3"), 0);
    let status = m.list_nodes().iter().find(|n| n.name == "node-3").unwrap().status;
    assert_eq!(status, NodeStatus::FailedOver);
    assert!(m.graceful_failover_at("node-3", "id2".to_string(), NOW).is_err());
    m.recover_node_at("node-3", NOW).unwrap();
    assert!(owned(&m, "node-3") > 0);
    assert!(m.hard_failover_at("node-1", "id3".to_string(), NOW).is_err());
    assert!(m.hard_failover_at("node-9", "id4".to_string(), NOW).is_err());
}

#[test]
fn silent_nodes_are_failed_over_after_their_timeout() {
    let mut m = cluster(3);
    let later = NOW + 3_600 * SECOND;
    m.heartbeat_at("node-2", later).unwrap();
    m.node_alive_at("node-1", later);
    let ids = vec!["a".to_string(), "b".to_string(), "c".to_string()];
    m.check_node_health_at(&ids, later);
    let much_later = later + 3_600 * SECOND;
    m.heartbeat_at("node-2", much_later).unwrap();
    let events = m.check_node_health_at(&ids, much_later);
    assert_eq!(events.len(), 1);
    assert_eq!(events[0].node_name, "node-3");
    assert_eq!(events[0].failover_type, FailoverType::Automatic);
    assert_eq!(owned(&m, "node-3"), 0);
}

/// A cluster of five in which two nodes have been silent for longer than the timeout.
fn two_silent(config: FailoverConfig) -> (ClusterManager, Vec<String>, i128) {
    let mut m = cluster(5);
    m.update_failover_config(config);
    let ids: Vec<String> = (0..5).map(|i| format!("id-{}", i)).collect();
    let mut now = NOW;
    for _ in 0..2 {
        now += 3_600 * SECOND;
        for name in ["node-2", "node-3"] {
            m.heartbeat_at(name, now).unwrap();
        }
        if now < NOW + 7_200 * SECOND {
            assert!(m.check_node_health_at(&ids, now).is_empty());
        }
    }
    (m, ids, now)
}

fn eager(max_count: u32, cooldown_secs: u64) -> FailoverConfig {
    FailoverConfig {
        enabled: true,
        timeout_secs: 60,
        max_count,
        failover_on_data_loss: false,
        min_cluster_size: 2,
        cooldown_secs,
    }
}

#[test]
fn encryption_between_nodes_has_its_own_setting() {
    let mut args = CliArgs::default();
    args.tls_enabled = true;
    let config: ServerConfig = args.into();
    let m = ClusterManager::new_at(&config, "uuid".to_string(), "group".to_string(), NOW);
    assert!(!m.cluster_encryption);
    assert!(m.has_room(3));
    let mut args = CliArgs::default();
    args.cluster_encryption = true;
    let config: ServerConfig = args.into();
    let mut m = ClusterManager::new_at(&config, "uuid".to_string(), "group".to_string(), NOW);
    assert!(m.cluster_encryption);
    m.partition_map.revision = u64::MAX;
    assert!(!m.has_room(1));
}

#[test]
fn a_health_check_keeps_to_the_quota() {
    let (mut m, ids, now) = two_silent(eager(1, 0));
    let events = m.check_node_health_at(&ids, now);
    assert_eq!(events.len(), 1);
    assert_eq!(events[0].id, "id-0");
    assert!(m.get_failover_state().quota_exhausted);
    let (mut m, ids, now) = two_silent(eager(3, 0));
    let events = m.check_node_health_at(&ids, now);
    assert_eq!(events.len(), 2);
    assert_eq!(events[1].id, "id-1");
    assert_eq!(m.get_failover_state().auto_failover_count, 2);
}

#[test]
fn a_health_check_keeps_to_the_cooldown() {
    let (mut m, ids, now) = two_silent(eager(3, 30));
    assert_eq!(m.check_node_health_at(&ids, now).len(), 1);
    for name in ["node-2", "node-3"] {
        m.heartbeat_at(name, now + 31 * SECOND).unwrap();
    }
    assert!(m.check_node_health_at(&ids, now + 29 * SECOND).is_empty());
    assert_eq!(m.check_node_health_at(&ids, now + 31 * SECOND).len(), 1);
}

#[test]
fn a_health_check_loses_no_data_unasked() {
    let (mut m, ids, now) = two_silent(eager(3, 0));
    for entry in m.partition_map.map.iter_mut().filter(|e| e.active_node == "node-4") {
        entry.replica_nodes.clear();
    }
    let events = m.check_node_health_at(&ids, now);
    assert_eq!(events.len(), 1);
    assert_eq!(events[0].node_name, "node-5");
    assert_eq!(events[0].replicas_promoted, events[0].vbuckets_affected);
    let mut config = eager(3, 0);
    config.failover_on_data_loss = true;
    let (mut m, ids, now) = two_silent(config);
    for entry in m.partition_map.map.iter_mut().filter(|e| e.active_node == "node-4") {
        entry.replica_nodes.clear();
    }
    assert_eq!(m.check_node_health_at(&ids, now).len(), 2);
}

#[test]
fn automatic_failover_is_guarded() {
    let config = FailoverConfig {
        enabled: true,
        timeout_secs: 10,
        max_count: 1,
        failover_on_data_loss: false,
        min_cluster_size: 3,
        cooldown_secs: 60,
    };
    let mut f = FailoverManager::new(config);
    assert!(f.can_auto_failover_at(3, NOW).0);
    assert!(!f.can_auto_failover_at(2, NOW).0);
    f.record_failover_at(
        "n",
        FailoverType::Automatic,
        "gone".to_string(),
        4,
        4,
        true,
        "id".to_string(),
        NOW,
    );
    assert!(!f.can_auto_failover_at(3, NOW + 120 * SECOND).0);
    f.reset_quota();
    assert!(f.can_auto_failover_at(3, NOW + 120 * SECOND).0);
    assert!(f.is_failed_over("n"));
    assert!(f.recover_node("n"));
    assert!(!f.is_failed_over("n"));
    assert!(!f.recover_node("n"));
}

#[test]
fn failure_timers_run() {
    let mut f = FailoverManager::new(FailoverConfig {
        enabled: true,
        timeout_secs: 10,
        max_count: 1,
        failover_on_data_loss: false,
        min_cluster_size: 3,
        cooldown_secs: 60,
    });
    assert_eq!(f.failure_timer_elapsed_at("n", NOW), None);
    f.start_failure_timer_at("n", NOW);
    f.start_failure_timer_at("n", NOW + 5 * SECOND);
    assert_eq!(f.failure_timer_elapsed_at("n", NOW + 10 * SECOND - 1), Some(9));
    assert!(!f.is_failure_timeout_reached_at("n", NOW + 10 * SECOND - 1));
    assert!(f.is_failure_timeout_reached_at("n", NOW + 10 * SECOND));
    f.clear_failure_timer("n");
    assert_eq!(f.failure_timer_elapsed_at("n", NOW), None);
}

#[test]
fn transfers_are_planned_and_finished() {
    let mut m = cluster(2);
    let batch = m.transfer_batch();
    assert!(!batch.is_empty());
    let first = batch[0].copy();
    match m.plan_transfer(&first) {
        TransferPlan::Export { target_url } => assert_eq!(target_url, "http://10.0.0.1:8092"),
        other => panic!("{:?}", other),
    }
    let waiting = m.transfer_batch().len();
    m.finish_transfer(first.vbucket_id, &vec![BucketMove::Moved]);
    assert_eq!(m.transfer_batch().len(), waiting - 1);
    assert_eq!(m.get_rebalance_status().transfers_completed, 1);
    assert_eq!(after_export(ExportOutcome::Documents(0)), Some(BucketMove::Nothing));
    assert_eq!(after_local_export(Some(3)), None);
    assert_eq!(after_send(Reply::Status(200)), BucketMove::Moved);
    assert_eq!(after_send(Reply::Unreachable), BucketMove::Failed);
    assert_eq!(transfer_url("http://h:1"), "http://h:1/api/v1/cluster/vbuckets/transfer");
    assert_eq!(export_url("http://h:1", "b", 7), "http://h:1/api/v1/cluster/vbuckets/b/7");
}

#[test]
fn server_groups_are_kept() {
    let mut m = cluster(2);
    let group = m.create_server_group_at("rack", "u".to_string(), NOW).unwrap();
    assert_eq!(group.name, "rack");
    assert!(m.create_server_group_at("rack", "v".to_string(), NOW).is_err());
    m.move_node_to_group("node-2", "rack").unwrap();
    assert!(m.delete_server_group("rack").is_err());
    assert!(m.move_node_to_group("node-9", "rack").is_err());
    assert!(m.move_node_to_group("node-2", "nowhere").is_err());
    m.move_node_to_group("node-2", "Group 1").unwrap();
    m.delete_server_group("rack").unwrap();
    assert_eq!(m.list_server_groups().len(), 1);
}

#[test]
fn heartbeats_go_to_the_others() {
    let mut m = cluster(2);
    let targets = m.heartbeat_targets();
    assert_eq!(targets.len(), 1);
    assert_eq!(targets[0].health_url, "http://10.0.0.1:8092/health");
    m.heartbeats_received(&vec![("node-2".to_string(), true)], NOW + 5);
    let beat = m.list_nodes().iter().find(|n| n.name == "node-2").unwrap().last_heartbeat;
    assert_eq!(beat, NOW + 5);
}
