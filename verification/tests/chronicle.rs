use oxidedb::cluster::chronicle::{
    Chronicle, CommitNotification, ConfigChangeType, ConfigEntry, ConfigProposal, EntryStatus,
    PrepareRequest,
};

fn proposal(change_type: ConfigChangeType, payload: &str, by: &str) -> ConfigProposal {
    ConfigProposal { change_type, payload: payload.to_string(), proposed_by: by.to_string() }
}

fn prepared(change_type: ConfigChangeType, payload: &str) -> ConfigEntry {
    ConfigEntry {
        term: 1,
        index: 1,
        change_type,
        payload: payload.to_string(),
        proposed_by: "node-1".to_string(),
        status: EntryStatus::Prepared,
        acks: vec!["node-1".to_string()],
        required_acks: 2,
        timestamp: 1_700_000_000_000_000_000,
    }
}

#[test]
fn test_single_node_auto_commit() {
    let mut chronicle = Chronicle::new("node-1".to_string());
    let payload = "{\"name\":\"test-bucket\",\"type\":\"couchbase\"}";
    let entry =
        chronicle.propose(proposal(ConfigChangeType::BucketCreate, payload, "node-1")).unwrap();
    assert_eq!(entry.status, EntryStatus::Committed);
    assert_eq!(entry.index, 1);
    assert_eq!(entry.term, 1);
    assert_eq!(chronicle.get_commit_index(), 1);
}

#[test]
fn test_multi_node_needs_majority() {
    let mut chronicle = Chronicle::new("node-1".to_string());
    chronicle.update_cluster_size(3);
    let payload = "{\"name\":\"test-bucket\"}";
    let entry =
        chronicle.propose(proposal(ConfigChangeType::BucketCreate, payload, "node-1")).unwrap();
    assert_eq!(entry.status, EntryStatus::Prepared);

    let committed = chronicle.process_ack(1, "node-2");
    assert!(committed.is_some());
    assert_eq!(committed.unwrap().status, EntryStatus::Committed);
    assert_eq!(chronicle.get_commit_index(), 1);
}

#[test]
fn test_follower_rejects_proposal() {
    let mut chronicle = Chronicle::new("node-2".to_string());
    chronicle.set_leader(false);
    let result =
        chronicle.propose(proposal(ConfigChangeType::BucketCreate, "{\"name\":\"test\"}", "node-2"));
    assert!(result.is_err());
}

#[test]
fn test_follower_handle_prepare() {
    let mut follower = Chronicle::new("node-2".to_string());
    follower.set_leader(false);
    let req = PrepareRequest {
        entry: prepared(ConfigChangeType::BucketCreate, "{\"name\":\"test-bucket\"}"),
        leader_term: 1,
        leader_commit_index: 0,
    };
    let resp = follower.handle_prepare(&req);
    assert!(resp.success);
    assert_eq!(resp.node, "node-2");
    assert_eq!(follower.log_length(), 1);
}

#[test]
fn test_commit_notification() {
    let mut follower = Chronicle::new("node-2".to_string());
    follower.set_leader(false);
    let req = PrepareRequest {
        entry: prepared(ConfigChangeType::NodeAdd, "{\"node\":\"node-3\"}"),
        leader_term: 1,
        leader_commit_index: 0,
    };
    follower.handle_prepare(&req);

    let commit = CommitNotification { index: 1, term: 1 };
    follower.apply_commit(&commit);
    assert_eq!(follower.get_commit_index(), 1);
}

#[test]
fn test_sequential_entries() {
    let mut chronicle = Chronicle::new("node-1".to_string());
    for i in 0..5 {
        let payload = format!("{{\"name\":\"bucket-{}\"}}", i);
        let entry = chronicle
            .propose(proposal(ConfigChangeType::BucketCreate, &payload, "node-1"))
            .unwrap();
        assert_eq!(entry.index, (i + 1) as u64);
        assert_eq!(entry.status, EntryStatus::Committed);
    }
    assert_eq!(chronicle.log_length(), 5);
    assert_eq!(chronicle.get_commit_index(), 5);
}

#[test]
fn test_get_committed_since() {
    let mut chronicle = Chronicle::new("node-1".to_string());
    for i in 0..3 {
        let payload = format!("{{\"name\":\"bucket-{}\"}}", i);
        chronicle.propose(proposal(ConfigChangeType::BucketCreate, &payload, "node-1")).unwrap();
    }
    let since_1 = chronicle.get_committed_since(1);
    assert_eq!(since_1.len(), 2);
}

#[test]
fn test_five_node_majority() {
    let mut chronicle = Chronicle::new("node-1".to_string());
    chronicle.update_cluster_size(5);
    let entry = chronicle
        .propose(proposal(ConfigChangeType::PartitionMapUpdate, "{\"revision\":42}", "node-1"))
        .unwrap();
    assert_eq!(entry.status, EntryStatus::Prepared);

    assert!(chronicle.process_ack(1, "node-2").is_none());

    let committed = chronicle.process_ack(1, "node-3");
    assert!(committed.is_some());
    assert_eq!(committed.unwrap().status, EntryStatus::Committed);
}

#[test]
fn prepare_twice_is_prepare_once() {
    let mut follower = Chronicle::new("node-2".to_string());
    follower.set_leader(false);
    let req = PrepareRequest {
        entry: prepared(ConfigChangeType::BucketCreate, "{}"),
        leader_term: 1,
        leader_commit_index: 0,
    };
    assert!(follower.handle_prepare(&req).success);
    assert!(follower.handle_prepare(&req).success);
    assert_eq!(follower.log_length(), 1);
}

#[test]
fn stale_leaders_are_refused() {
    let mut follower = Chronicle::new("node-2".to_string());
    follower.set_leader(false);
    follower.new_term();
    let req = PrepareRequest {
        entry: prepared(ConfigChangeType::BucketCreate, "{}"),
        leader_term: 1,
        leader_commit_index: 0,
    };
    let resp = follower.handle_prepare(&req);
    assert!(!resp.success);
    assert!(resp.reason.is_some());
    assert_eq!(follower.log_length(), 0);
}

#[test]
fn entries_without_a_majority_time_out() {
    let mut chronicle = Chronicle::new("node-1".to_string());
    chronicle.update_cluster_size(3);
    chronicle
        .propose_at(proposal(ConfigChangeType::BucketCreate, "{}", "node-1"), 1_000_000_000_000)
        .unwrap();
    chronicle.fail_timed_out_entries_at(30, 1_030_999_999_999);
    assert_eq!(chronicle.get_uncommitted().len(), 1);
    chronicle.fail_timed_out_entries_at(30, 1_031_000_000_000);
    assert_eq!(chronicle.get_uncommitted().len(), 0);
    assert!(chronicle.process_ack(1, "node-2").is_none());
}

#[test]
fn collection_keeps_the_latest_committed_entries() {
    let mut chronicle = Chronicle::new("node-1".to_string());
    for _ in 0..5 {
        chronicle.propose(proposal(ConfigChangeType::BucketCreate, "{}", "node-1")).unwrap();
    }
    chronicle.gc_old_entries(2);
    assert_eq!(chronicle.log_length(), 2);
    assert_eq!(chronicle.get_committed_since(0)[0].index, 4);
    assert_eq!(chronicle.get_commit_index(), 5);
}

#[test]
fn acknowledgements_count_once() {
    let mut chronicle = Chronicle::new("node-1".to_string());
    chronicle.update_cluster_size(5);
    chronicle.propose(proposal(ConfigChangeType::BucketCreate, "{}", "node-1")).unwrap();
    for _ in 0..3 {
        assert!(chronicle.process_ack(1, "node-2").is_none());
    }
    assert_eq!(chronicle.log[0].acks, vec!["node-1", "node-2"]);
    assert!(chronicle.process_ack(1, "node-3").is_some());
}
