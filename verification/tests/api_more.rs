use oxidedb::api::dcp_routes::{is_sent, lagged_data, sse_event_name, stream_answer, Poll, MAX_POLLED};
use oxidedb::api::fts_routes::{index_build_answer, index_drop_answer, search_failure};
use oxidedb::api::index_routes::{index_dropped, index_missing, index_rebuilt};
use oxidedb::api::metrics::{
    escape_label, prometheus_metrics, BucketMetrics, MetricsSnapshot, NodeMetrics,
};
use oxidedb::api::rbac_routes::{
    change_password, create_user, delete_user, get_user, update_user_roles, ChangePasswordRequest,
    CreateUserRequest, UpdateRolesRequest,
};
use oxidedb::api::replication_routes::{
    get_chronicle_log, handle_chronicle_ack, handle_chronicle_commit, propose_config_change,
    AckRequest, LogQuery,
};
use oxidedb::api::root::{health_check_at, root_handler};
use oxidedb::api::transaction_routes::{
    read_doc_request, read_mutation_request, step_staged, transaction_begun, transaction_committed,
    transaction_missing, transaction_refused, transaction_rolled_back, StagedStep,
    TransactionDocRequest, TransactionMutationRequest, TransactionRequest,
};
use oxidedb::api::xdcr_routes::{
    create_replication, replication_answer, replication_to_response, CreateReplicationRequest,
    ReplicationState,
};
use oxidedb::auth::rbac::RbacManager;
use oxidedb::cluster::chronicle::{Chronicle, CommitNotification, ConfigChangeType, ConfigProposal};
use oxidedb::cluster::node::NodeStatus;
use oxidedb::cluster::ClusterManager;
use oxidedb::config::{CliArgs, ServerConfig};
use oxidedb::dcp::stream::{CreateStreamRequest, DcpEngine, DcpEventType};
use oxidedb::error::NosqlError;
use oxidedb::json::Json;
use oxidedb::tasks::{
    banner_settings, eviction_target, maintain_chronicle_at, plan_tls, start_background_tasks, tls_port,
    storage_dir, Interval, Task, TlsPlan,
};

fn get<'a>(j: &'a Json, name: &str) -> &'a Json {
    match j {
        Json::Object(members) => &members.iter().find(|m| m.0 == name).unwrap().1,
        other => panic!("{:?}", other),
    }
}

fn text(j: &Json) -> String {
    match j {
        Json::Text(t) => t.clone(),
        Json::Number(n) => n.clone(),
        other => panic!("{:?}", other),
    }
}

fn snapshot() -> MetricsSnapshot {
    MetricsSnapshot {
        uptime_seconds: 12,
        buckets_total: 2,
        buckets: vec![BucketMetrics {
            name: "a\"b".to_string(),
            documents: 3,
            size_bytes: 4,
            ram_quota_mb: 2,
            vbuckets: 64,
            evicted: 5,
            scopes: 1,
        }],
        nodes: vec![NodeMetrics { name: "n1".to_string(), status: NodeStatus::Warmup }],
        rebalance_in_progress: true,
        rebalance_percent: "12.50".to_string(),
        map_revision: 7,
        map_vbuckets: 64,
        indexes: vec![],
        fts_indexes: vec![],
        wal: None,
        replications: vec![],
        streams: vec![],
        active_transactions: 0,
        audit_events: 1,
        audit_enabled: true,
        prepared_statements: 0,
        users: 1,
    }
}

#[test]
fn metrics_are_written_for_the_scraper() {
    let out = prometheus_metrics(&snapshot());
    assert!(out.starts_with(
        "# HELP oxidedb_info OxideDB build information\n# TYPE oxidedb_info gauge\n\
         oxidedb_info{version=\"0.5.0\",edition=\"2021\"} 1\n"
    ));
    for line in [
        "oxidedb_uptime_seconds 12",
        "oxidedb_buckets_total 2",
        "oxidedb_bucket_ram_quota_bytes{bucket=\"a\\\"b\"} 2097152",
        "oxidedb_cluster_node_status{node=\"n1\",status=\"Warmup\"} 0",
        "oxidedb_cluster_rebalance_in_progress 1",
        "oxidedb_cluster_rebalance_progress_percent 12.50",
        "oxidedb_rbac_users_total 1",
    ] {
        assert!(out.lines().any(|l| l == line), "{}", line);
    }
    assert!(!out.contains("oxidedb_wal_"));
    assert!(out.ends_with('\n'));
}

#[test]
fn labels_are_escaped() {
    assert_eq!(escape_label("a\\b\"c\nd"), "a\\\\b\\\"c\\nd");
    assert_ne!(escape_label("\n"), escape_label("\\n"));
}

#[test]
fn users_are_managed() {
    let mut rbac = RbacManager::new();
    let req = || CreateUserRequest {
        username: "u".to_string(),
        password: "p".to_string(),
        display_name: None,
        roles: None,
    };
    let report = create_user(&mut rbac, req()).ok().unwrap();
    assert_eq!(report.audit, "User 'u' created");
    assert_eq!(get_user(&rbac, "u").ok().unwrap().display_name, "u");
    assert_eq!(create_user(&mut rbac, req()).err().unwrap().status, 409);
    assert_eq!(get_user(&rbac, "x").err().unwrap().status, 404);
    let answer =
        update_user_roles(&mut rbac, "u", UpdateRolesRequest { roles: vec![] }).ok().unwrap();
    assert_eq!(text(get(&answer, "message")), "Roles updated for user 'u'");
    let answer =
        change_password(&mut rbac, "u", ChangePasswordRequest { password: "q".to_string() });
    assert_eq!(text(get(&answer.ok().unwrap(), "message")), "Password changed for user 'u'");
    assert!(rbac.authenticate("u", "q").is_some());
    assert_eq!(delete_user(&mut rbac, "Administrator").err().unwrap().status, 400);
    assert!(delete_user(&mut rbac, "u").is_ok());
}

#[test]
fn consensus_is_answered() {
    let mut args = CliArgs::default();
    args.num_vbuckets = 4;
    let config: ServerConfig = args.into();
    let manager = ClusterManager::new_at(&config, "u".to_string(), "g".to_string(), 0);
    let orchestrator = manager.get_orchestrator_state();
    let proposal = || ConfigProposal {
        change_type: ConfigChangeType::BucketCreate,
        payload: "{}".to_string(),
        proposed_by: "node-1".to_string(),
    };
    let mut c = Chronicle::new("node-1".to_string());
    c.update_cluster_size(3);
    let taken = propose_config_change(&mut c, proposal(), &orchestrator);
    assert_eq!(text(get(&taken, "entry_status")), "Prepared");
    let ack = handle_chronicle_ack(&mut c, &AckRequest { index: 9, node: "n".to_string() });
    assert_eq!(text(get(&ack, "status")), "acknowledged");
    let ack = handle_chronicle_ack(&mut c, &AckRequest { index: 1, node: "n".to_string() });
    assert_eq!(text(get(&ack, "status")), "committed");
    assert_eq!(text(get(&ack, "change_type")), "BucketCreate");
    let log = get_chronicle_log(&c, &LogQuery { since: None });
    assert_eq!((log.count, log.current_commit_index), (1, 1));
    let mut follower = Chronicle::new("node-2".to_string());
    follower.set_leader(false);
    let refused = propose_config_change(&mut follower, proposal(), &orchestrator);
    assert_eq!(text(get(&refused, "status")), "error");
    assert_eq!(text(get(&refused, "orchestrator")), "node-1");
    let news = handle_chronicle_commit(&mut follower, &CommitNotification { index: 4, term: 1 });
    assert_eq!(text(get(&news, "committed_index")), "4");
    maintain_chronicle_at(&mut c, 0);
    assert_eq!(c.log_length(), 1);
}

#[test]
fn polls_collect_what_the_stream_is_about() {
    let mut engine = DcpEngine::new();
    let req = CreateStreamRequest {
        name: "s".to_string(),
        bucket: "b".to_string(),
        scope_filter: Some("x".to_string()),
        collection_filter: None,
        from_seq_no: 0,
        include_backfill: false,
    };
    let stream = engine.create_stream(&req, None).ok().unwrap();
    let mut poll = Poll::new();
    let mut go_on = true;
    let mut offered = 0;
    while go_on {
        let scope = if offered % 2 == 0 { "x" } else { "y" };
        let event = engine.publish_mutation_at("b", scope, "c", "k", None, 1, 1, 0, 0);
        assert_eq!(is_sent(Some(&stream), &event), offered % 2 == 0);
        assert!(is_sent(None, &event));
        go_on = poll.offer(&stream, event);
        offered += 1;
    }
    assert_eq!(poll.events.len(), MAX_POLLED);
    assert_eq!(offered, 2 * MAX_POLLED - 1);
    assert_eq!(sse_event_name(DcpEventType::Expiration), "expiration");
    assert_eq!(text(get(&lagged_data(3), "skipped")), "3");
    let closed = stream_answer("i", "closed", &Ok(()));
    assert_eq!(text(get(&closed, "message")), "Stream 'i' closed");
    let failed = stream_answer("i", "closed", &Err("no".to_string()));
    assert_eq!(text(get(&failed, "error")), "no");
}

#[test]
fn search_and_index_answers() {
    assert_eq!(
        text(get(&index_build_answer("i", &Ok(4)), "message")),
        "FTS index 'i' rebuilt with 4 documents"
    );
    assert_eq!(
        text(get(&index_drop_answer("i", &Ok(())), "message")),
        "FTS index 'i' dropped"
    );
    assert_eq!(text(get(&search_failure("x"), "status")), "errors");
    assert_eq!(
        text(get(&index_rebuilt("b", "i", 4), "message")),
        "Index 'i' rebuilt with 4 entries"
    );
    assert_eq!(
        text(get(&index_dropped("b", "i"), "message")),
        "Index 'i' dropped from bucket 'b'"
    );
    match index_missing("b", "i") {
        NosqlError::InvalidRequest(m) => assert_eq!(m, "Index 'i' not found on bucket 'b'"),
        _ => panic!(),
    }
}

#[test]
fn transactions_are_answered() {
    let req = TransactionDocRequest {
        bucket: "b".to_string(),
        scope: None,
        collection: Some("c".to_string()),
        key: "k".to_string(),
        cas: None,
    };
    let call = read_doc_request(&req);
    assert_eq!((call.scope.as_str(), call.collection.as_str(), call.cas), ("_default", "c", 0));
    let mut write = TransactionMutationRequest {
        bucket: "b".to_string(),
        scope: None,
        collection: None,
        key: "k".to_string(),
        value: None,
        cas: Some(3),
    };
    let refusal = read_mutation_request(StagedStep::Replace, &write).err().unwrap();
    assert_eq!((refusal.status, refusal.error.as_str()), (400, "value is required for replace"));
    write.value = Some("1".to_string());
    assert_eq!(read_mutation_request(StagedStep::Insert, &write).ok().unwrap().cas, 3);
    assert_eq!(text(get(&step_staged(StagedStep::Remove, "k"), "operation")), "remove");
    let begun = transaction_begun("t");
    assert_eq!((begun.status, begun.audit.as_str()), (201, "Transaction t started"));
    assert_eq!(transaction_committed("t", 2, 5).audit, "Transaction t committed (2 mutations, 5ms)");
    assert_eq!(transaction_rolled_back("t").audit, "Transaction t rolled back");
    assert_eq!(transaction_refused(TransactionRequest::Commit, "x".to_string()).status, 409);
    assert_eq!(transaction_refused(TransactionRequest::Step, "x".to_string()).status, 400);
    assert_eq!(transaction_missing("t").error, "Transaction 't' not found");
}

#[test]
fn replications_are_named_after_their_ends() {
    let mut req = CreateReplicationRequest {
        source_bucket: "a".to_string(),
        target_cluster: "c".to_string(),
        target_bucket: "b".to_string(),
        conflict_resolution: "LWW".to_string(),
        filter_expression: None,
        batch_size: 500,
        bidirectional: false,
    };
    let config = create_replication(&req, 0).unwrap();
    assert_eq!(config.id, "a/c/b");
    let state = ReplicationState {
        config,
        status: "Running".to_string(),
        docs_replicated: 1,
        docs_failed: 2,
        total_conflicts: 3,
        last_replicated_at: None,
        error_message: None,
    };
    let out = replication_to_response(&state);
    assert_eq!((out.conflict_resolution.as_str(), out.total_conflicts), ("Timestamp", 3));
    assert!(out.created_at.starts_with("1970-01-01T00:00:00"));
    req.conflict_resolution = "coin".to_string();
    assert!(create_replication(&req, 0).is_err());
    assert_eq!(text(get(&replication_answer("a/c/b", "paused"), "message")), "Replication 'a/c/b' paused");
}

#[test]
fn servers_start_with_their_settings() {
    let mut args = CliArgs::default();
    args.enable_persistence = false;
    args.tls_enabled = true;
    let mut config: ServerConfig = args.into();
    assert_eq!(storage_dir(&config), None);
    assert_eq!(plan_tls(&config), TlsPlan::PathsMissing);
    assert_eq!(tls_port(&config), 11207);
    config.tls_memcached_port = 0;
    assert_eq!(tls_port(&config), config.memcached_port);
    config.tls_memcached_port = 11207;
    let tasks = start_background_tasks(&config);
    assert!(tasks.iter().all(|t| t.task != Task::FlushLog && t.task != Task::Compact));
    let full: ServerConfig = CliArgs::default().into();
    let tasks = start_background_tasks(&full);
    assert_eq!(tasks.len(), 10);
    assert!(tasks
        .iter()
        .any(|t| t.task == Task::FlushLog && t.interval == Interval::Milliseconds(50)));
    let banner = banner_settings(&full);
    assert!(banner.contains("\n  REST API:    0.0.0.0:8091\n"));
    assert!(banner.contains("\n  TLS:         disabled \n"));
    assert_eq!(text(get(&root_handler(), "name")), "OxideDB");
    assert_eq!(text(get(&health_check_at(0), "status")), "ok");
}

#[test]
fn full_buckets_are_emptied() {
    let mb = 1024 * 1024;
    assert_eq!(eviction_target(100, 91 * mb), Some(80 * mb));
    assert_eq!(eviction_target(100, 90 * mb), None);
    assert_eq!(eviction_target(0, 90 * mb), None);
}
