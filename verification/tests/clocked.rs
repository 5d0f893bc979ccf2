use oxidedb::api::document_routes::xattr_changed;
use oxidedb::api::index_routes::{index_created, IndexResponse};
use oxidedb::api::xdcr_routes::{default_batch_size, remote_cluster_answer};
use oxidedb::auth::middleware::AuthUser;
use oxidedb::auth::rbac::{Permission, RbacManager, Role, RoleAssignment};
use oxidedb::cluster::chronicle::{Chronicle, ConfigChangeType, ConfigProposal, EntryStatus};
use oxidedb::cluster::durability::{DurabilityLevel, DurabilityRequirement, DurabilityToken};
use oxidedb::cluster::failover::{FailoverConfig, FailoverManager, FailoverType};
use oxidedb::cluster::node::ClusterNode;
use oxidedb::cluster::partition::PartitionMap;
use oxidedb::dcp::replicator::{IntraClusterReplicator, ReplicationMutation};
use oxidedb::dcp::stream::{DcpEngine, DcpEventType};
use oxidedb::fts::analyzer::{find_letter_tokens, find_standard_tokens};
use oxidedb::json::Json;

fn get<'a>(j: &'a Json, name: &str) -> &'a Json {
    match j {
        Json::Object(members) => &members.iter().find(|m| m.0 == name).unwrap().1,
        other => panic!("{:?}", other),
    }
}

fn text(j: &Json) -> String {
    match j {
        Json::Text(t) => t.clone(),
        Json::Number(n) => n.clone(),
        other => panic!("{:?}", other),
    }
}

#[test]
fn certificates_name_users_by_prefix() {
    let mut rbac = RbacManager::new();
    rbac.create_user("app".into(), "p".into(), "App".into(), vec![]).unwrap();
    assert_eq!(rbac.authenticate_cert_with_prefix("app").unwrap().username, "app");
    assert_eq!(rbac.authenticate_cert_with_prefix("app.example.com").unwrap().username, "app");
    assert!(rbac.authenticate_cert_with_prefix("ap").is_none());
    assert!(rbac.authenticate_cert_with_prefix("other").is_none());
}

#[test]
fn users_know_what_they_may_do() {
    let mut rbac = RbacManager::new();
    let roles = vec![RoleAssignment { role: Role::DataReader, bucket: Some("b".into()) }];
    rbac.create_user("u".into(), "p".into(), "U".into(), roles).unwrap();
    let user = AuthUser(rbac.authenticate("u", "p").unwrap());
    assert!(user.has_permission(&rbac, &Permission::BucketRead("b".into())));
    assert!(!user.has_permission(&rbac, &Permission::BucketRead("c".into())));
    assert!(!user.has_permission(&rbac, &Permission::BucketWrite("b".into())));
}

#[test]
fn leaders_ask_followers_to_replicate() {
    let mut chronicle = Chronicle::new("node-1".to_string());
    chronicle.update_cluster_size(3);
    chronicle.new_term();
    assert_eq!(chronicle.get_term(), 2);
    let entry = chronicle
        .propose(ConfigProposal {
            change_type: ConfigChangeType::BucketCreate,
            payload: "{}".to_string(),
            proposed_by: "node-1".to_string(),
        })
        .unwrap();
    let request = chronicle.build_prepare_request(&entry);
    assert_eq!(request.leader_term, 2);
    assert_eq!(request.leader_commit_index, 0);
    assert_eq!(request.entry.index, 1);
    assert_eq!(request.entry.payload, "{}");
    chronicle.fail_timed_out_entries(3600);
    assert_eq!(chronicle.log[0].status, EntryStatus::Prepared);
    chronicle.fail_timed_out_entries(-10);
    assert_eq!(chronicle.log[0].status, EntryStatus::Failed);
}

#[test]
fn writes_time_out() {
    let patient = DurabilityRequirement { level: DurabilityLevel::Majority, timeout_ms: 3_600_000 };
    assert!(!patient.requires_persist_replicas());
    let token = DurabilityToken::new("k".to_string(), 0, 1, 1, patient, vec!["n".to_string()]);
    assert!(!token.is_timed_out());
    let strict = DurabilityRequirement { level: DurabilityLevel::PersistToMajority, timeout_ms: 0 };
    assert!(strict.requires_persist_replicas());
    let token = DurabilityToken::new("k".to_string(), 0, 1, 1, strict, vec!["n".to_string()]);
    let mut turns: u64 = 0;
    while !token.is_timed_out() && turns < 1_000_000 {
        turns += 1;
    }
    assert!(token.is_timed_out());
}

#[test]
fn failovers_go_by_the_clock() {
    let mut f = FailoverManager::new(FailoverConfig {
        enabled: true,
        timeout_secs: 3600,
        max_count: 1,
        failover_on_data_loss: false,
        min_cluster_size: 3,
        cooldown_secs: 3600,
    });
    assert_eq!(f.can_auto_failover("n", 3), (true, "OK".to_string()));
    assert_eq!(f.failure_timer_elapsed("n"), None);
    f.start_failure_timer("n");
    assert!(f.failure_timer_elapsed("n").unwrap() < 60);
    assert!(!f.is_failure_timeout_reached("n"));
    let event = f.record_failover("n", FailoverType::Hard, "asked".to_string(), 2, 1, true);
    assert_eq!(event.id.len(), 36);
    assert_eq!(event.reason, "asked");
    assert!(f.is_failed_over("n"));
}

#[test]
fn nodes_join_groups() {
    let node = ClusterNode::new_with_group("n".into(), "h".into(), 8091, "rack-2".into());
    assert_eq!(node.server_group, "rack-2");
    assert_eq!(node.base_url(), "http://h:8091");
}

#[test]
fn replicas_are_found() {
    let map = PartitionMap::new(8, 1, &["a".to_string(), "b".to_string()]);
    let of_a = map.active_vbuckets_for("a");
    assert_eq!(map.replica_vbuckets_for("b"), of_a);
    assert!(map.replica_vbuckets_for("c").is_empty());
}

#[test]
fn changes_are_published_as_they_happen() {
    let mut engine = DcpEngine::new();
    let before = engine.get_high_seq_no("b", 3);
    let a = engine.publish_mutation("b", "s", "c", "k", Some("1"), 7, 3, 0);
    let b = engine.publish_deletion("b", "s", "c", "k", 8, 3);
    let c = engine.publish_expiration("b", "s", "c", "k", 9, 3);
    assert_eq!(a.event_type, DcpEventType::Mutation);
    assert_eq!(b.event_type, DcpEventType::Deletion);
    assert_eq!(c.event_type, DcpEventType::Expiration);
    assert_eq!((b.seq_no, c.seq_no), (a.seq_no + 1, a.seq_no + 2));
    assert_eq!(c.value, None);
    assert_eq!(engine.get_high_seq_no("b", 3), before + 3);
    assert_eq!(engine.get_failover_log("b", 3), vec![(0, 0)]);
}

#[test]
fn batches_name_their_source() {
    let replicator = IntraClusterReplicator::new("node-1".to_string());
    let change = ReplicationMutation {
        bucket: "b".to_string(),
        vbucket_id: 3,
        key: "k".to_string(),
        value: None,
        cas: 1,
        seq_no: 2,
        rev_id: 3,
        expiry: 0,
        flags: 0,
        deleted: true,
        source_node: "node-1".to_string(),
    };
    let batch = replicator.single_batch(&change);
    assert_eq!(batch.source_node, "node-1");
    assert_eq!(batch.mutations.len(), 1);
    assert_eq!(batch.mutations[0].key, "k");
    assert!(batch.mutations[0].deleted);
}

#[test]
fn words_are_found_with_their_places() {
    let letters = find_letter_tokens("ab1 é2c");
    let expected = vec![(0, "ab".to_string()), (4, "é".to_string()), (7, "c".to_string())];
    assert_eq!(letters, expected);
    let standard = find_standard_tokens("it's a test-case.");
    assert_eq!(standard.len(), 3);
    assert_eq!(standard[1], (5, "a".to_string()));
}

#[test]
fn answers_name_what_changed() {
    let answer = xattr_changed("k", "meta.owner", 12);
    assert_eq!(text(get(&answer, "path")), "meta.owner");
    assert_eq!(text(get(&answer, "cas")), "12");
    let index = IndexResponse {
        name: "i".into(),
        bucket: "b".into(),
        scope: "_default".into(),
        collection: "_default".into(),
        fields: vec!["age".into()],
        index_type: "gsi".into(),
        state: "ready".into(),
        num_entries: 3,
        created_at: "now".into(),
        condition: None,
    };
    let answer = index_created(&index, 3);
    assert_eq!(text(get(&answer, "message")), "Index 'i' created and built with 3 entries");
    assert_eq!(text(get(get(&answer, "index"), "state")), "ready");
    assert!(matches!(get(get(&answer, "index"), "condition"), Json::Null));
    let answer = remote_cluster_answer("far", "removed");
    assert_eq!(text(get(&answer, "message")), "Remote cluster 'far' removed");
    assert_eq!(default_batch_size(), 500);
}
