use oxidedb::api::backup_routes::{
    backup_dir, backup_missing, backup_name, buckets_to_backup, create_backup, is_restored,
    restore_backup, scope_calls, BucketOutcome, CreateBackupRequest, RestoreRequest, ScopeCall,
};
use oxidedb::api::bucket_routes::{
    bucket_created, bucket_deleted, collection_created, create_bucket, replicate_to_cluster,
    CompressionMode, CreateBucketRequest, CreateCollectionRequest, EvictionPolicy, ScopeResponse,
};
use oxidedb::api::cluster_routes::{
    bucket_sync, default_failover_type, failover_config_updated, format_vbucket_ranges,
    get_partition_map, get_partition_summary, get_rebalance_status, list_server_groups,
    node_failed_over, quota_reset, server_group_created, sync_buckets_to_node,
};
use oxidedb::api::couchbase_compat::{
    admin_ping, build_bucket_config, cluster_config, read_query, urlencoding_decode,
};
use oxidedb::cluster::failover::FailoverConfig;
use oxidedb::cluster::node::{ClusterNode, NodeStatus, ServerGroup};
use oxidedb::cluster::partition::{
    NodePartitionInfo, PartitionMap, Progress, RebalanceStatus, TransferStatus, VBucketTransfer,
};
use oxidedb::cluster::server_map::LocalPorts;
use oxidedb::error::NosqlError;
use oxidedb::json::Json;

fn get<'a>(j: &'a Json, name: &str) -> &'a Json {
    match j {
        Json::Object(members) => &members.iter().find(|m| m.0 == name).unwrap().1,
        other => panic!("{:?}", other),
    }
}

fn text(j: &Json) -> String {
    match j {
        Json::Text(t) => t.clone(),
        Json::Number(n) => n.clone(),
        other => panic!("{:?}", other),
    }
}

fn item(j: &Json, i: usize) -> &Json {
    match j {
        Json::Array(items) => &items[i],
        other => panic!("{:?}", other),
    }
}

fn node(name: &str, host: &str, port: u16) -> ClusterNode {
    ClusterNode::new_self_at(name.to_string(), host.to_string(), port, 0)
}

fn local() -> LocalPorts {
    LocalPorts { node_name: "n1".to_string(), port: 8091, memcached_port: 11210 }
}

#[test]
fn vbuckets_are_written_as_ranges() {
    assert_eq!(format_vbucket_ranges(&[]), "none");
    assert_eq!(format_vbucket_ranges(&[5]), "5");
    assert_eq!(format_vbucket_ranges(&[3, 1, 2, 7, 9, 8]), "1-3, 7-9");
    assert_eq!(format_vbucket_ranges(&[65535, 0]), "0, 65535");
}

#[test]
fn the_partition_map_is_told() {
    let map = PartitionMap::new(2, 1, &["a".to_string(), "b".to_string()]);
    let nodes = vec![NodePartitionInfo {
        node_name: "a".to_string(),
        active_vbuckets: vec![4, 2, 3],
        replica_vbuckets: vec![9],
        active_count: 3,
        replica_count: 1,
    }];
    let status = RebalanceStatus {
        in_progress: true,
        progress: Progress::NotStarted,
        transfers_total: 4,
        transfers_completed: 1,
        source_map_revision: 7,
        target_map_revision: 8,
    };
    let told = get_partition_map(&map, &nodes);
    assert_eq!(text(get(&told, "num_vbuckets")), "2");
    assert_eq!(text(get(&told, "num_replicas")), "1");
    let info = item(get(&told, "nodes"), 0);
    assert_eq!(text(item(get(info, "active_vbuckets"), 0)), "4");
    assert_eq!(text(item(get(info, "replica_vbuckets"), 0)), "9");
    let owner = item(get(&told, "map"), 1);
    assert_eq!(text(get(owner, "active_node")), map.map[1].active_node);
    assert_eq!(text(item(get(owner, "replica_nodes"), 0)), map.map[1].replica_nodes[0]);

    let summary = get_partition_summary(&map, &nodes, &status, "25.0");
    let share = item(get(&summary, "nodes"), 0);
    assert_eq!(text(get(share, "active_vbucket_range")), "2-4");
    assert_eq!(text(get(share, "active_count")), "3");
    assert_eq!(text(get(get(&summary, "rebalance_status"), "progress_percent")), "25.0");

    let pending = vec![VBucketTransfer {
        vbucket_id: 1,
        from_node: "a".to_string(),
        to_node: "b".to_string(),
        status: TransferStatus::Pending,
    }];
    let told = get_rebalance_status(&status, "25.0", &pending);
    assert_eq!(text(get(get(&told, "status"), "transfers_completed")), "1");
    assert_eq!(text(get(get(&told, "status"), "target_map_revision")), "8");
    assert_eq!(text(get(item(get(&told, "pending_transfers"), 0), "to_node")), "b");
    assert_eq!(text(get(&quota_reset(), "message")), "Auto-failover quota reset");
}

#[test]
fn failovers_and_groups_are_told() {
    let mut config = FailoverConfig::default();
    config.timeout_secs = 77;
    let told = failover_config_updated(&config);
    assert_eq!(text(get(&told, "message")), "Failover configuration updated");
    assert_eq!(text(get(get(&told, "config"), "timeout_secs")), "77");
    let told = node_failed_over("n", Json::Text("gone".to_string()));
    assert_eq!(text(get(&told, "message")), "Node 'n' failed over successfully");
    assert_eq!(text(get(&told, "event")), "gone");
    let group = ServerGroup {
        name: "rack".to_string(),
        uuid: "u".to_string(),
        nodes: vec!["n".to_string()],
    };
    let told = server_group_created("rack", &group);
    assert_eq!(text(get(&told, "message")), "Server group 'rack' created");
    assert_eq!(text(item(get(get(&told, "group"), "nodes"), 0)), "n");
    let told = list_server_groups(&vec![group]);
    assert_eq!(text(get(item(get(&told, "groups"), 0), "uuid")), "u");
}

#[test]
fn bucket_configurations_route_clients() {
    let nodes = vec![node("n1", "0.0.0.0", 8091), node("n2", "10.0.0.2", 9091)];
    let names = vec!["n1".to_string(), "n2".to_string()];
    let map = PartitionMap::new(4, 1, &names);
    let config = build_bucket_config("travel", &map, &nodes, &local(), "uuid", 12, 34);
    let servers = get(get(&config, "vBucketServerMap"), "serverList");
    assert_eq!(text(item(servers, 0)), "127.0.0.1:11210");
    assert_eq!(text(item(servers, 1)), "10.0.0.2:12210");
    let row = item(get(get(&config, "vBucketServerMap"), "vBucketMap"), 0);
    assert_eq!((text(item(row, 0)), text(item(row, 1))), ("0".to_string(), "1".to_string()));
    assert_eq!(text(get(&config, "uri")), "/pools/default/buckets/travel");
    assert_eq!(text(get(get(&config, "basicStats"), "itemCount")), "12");
    let first = item(get(&config, "nodes"), 0);
    assert_eq!(text(get(first, "couchApiBase")), "http://127.0.0.1:8091/");
    assert_eq!(text(get(first, "otpNode")), "ns_1@127.0.0.1");
    let global = cluster_config(&None, &map, &nodes, &local(), "uuid", 0);
    assert_eq!(text(get(&global, "revEpoch")), "1");
    let selected =
        cluster_config(&Some("travel".to_string()), &map, &nodes, &local(), "uuid", 5);
    assert_eq!(text(get(&selected, "itemCount")), "5");
    assert_eq!(text(get(&admin_ping(), "status")), "ok");
}

#[test]
fn unknown_owners_have_no_place() {
    let nodes = vec![node("n1", "h", 8091)];
    let map = PartitionMap::new(1, 1, &vec!["n9".to_string()]);
    let config = build_bucket_config("b", &map, &nodes, &local(), "u", 0, 0);
    let row = item(get(get(&config, "vBucketServerMap"), "vBucketMap"), 0);
    assert_eq!((text(item(row, 0)), text(item(row, 1))), ("-1".to_string(), "-1".to_string()));
}

#[test]
fn forms_are_decoded() {
    assert_eq!(urlencoding_decode("a+b%20c%41"), "a b cA");
    assert_eq!(urlencoding_decode("100%"), "100");
    assert_eq!(urlencoding_decode("%zz!"), "!");
    assert_eq!(urlencoding_decode("%+fx"), "\u{f}x");
    assert_eq!(urlencoding_decode("plain"), "plain");
}

#[test]
fn queries_are_read_in_both_notations() {
    let q = read_query("x=1&statement=SELECT+1&y").ok().unwrap();
    assert_eq!((q.statement.as_str(), q.params), ("SELECT 1", None));
    let q = read_query("{\"statement\": \"SELECT $1\", \"args\": [1, 2]}").ok().unwrap();
    assert_eq!(q.statement, "SELECT $1");
    assert_eq!(q.params, Some("[1,2]".to_string()));
    let q = read_query("{\"statement\":\"s\",\"args\":[1],\"named_params\":{\"a\":1}}").ok().unwrap();
    assert_eq!(q.params, Some("{\"a\":1}".to_string()));
    let refused = read_query("{}").err().unwrap();
    let error = item(get(&refused, "errors"), 0);
    assert_eq!(text(get(error, "code")), "1000");
    assert_eq!(text(get(error, "msg")), "No statement provided");
}

fn bucket_request(kind: &str, resolution: &str) -> CreateBucketRequest {
    CreateBucketRequest {
        name: "b".to_string(),
        bucket_type: kind.to_string(),
        ram_quota_mb: 100,
        num_replicas: 1,
        flush_enabled: false,
        conflict_resolution: resolution.to_string(),
        max_ttl: None,
    }
}

#[test]
fn buckets_are_requested_by_words() {
    let config = create_bucket(&bucket_request("Ephemeral", "LWW"), 64).unwrap();
    assert_eq!(config.bucket_type.to_text(), "Ephemeral");
    assert_eq!(config.conflict_resolution.to_text(), "Timestamp");
    assert_eq!(config.num_vbuckets, 64);
    assert_eq!(config.compression_mode, CompressionMode::Passive);
    assert_eq!(config.eviction_policy, EvictionPolicy::ValueOnly);
    match create_bucket(&bucket_request("disk", "seqno"), 64) {
        Err(NosqlError::InvalidRequest(m)) => assert_eq!(m, "Invalid bucket type: disk"),
        _ => panic!(),
    }
    match create_bucket(&bucket_request("couchbase", "coin"), 64) {
        Err(NosqlError::InvalidRequest(m)) => assert_eq!(m, "Invalid conflict resolution: coin"),
        _ => panic!(),
    }
}

#[test]
fn a_synced_bucket_is_accepted() {
    for (kind, resolution) in [("couchbase", "seqno"), ("ephemeral", "lww"), ("memcached", "sequence")] {
        let config = create_bucket(&bucket_request(kind, resolution), 64).unwrap();
        let sync = bucket_sync("http://h:1", &config);
        assert_eq!(sync.url, "http://h:1/api/v1/buckets");
        let again = bucket_request(
            &text(get(&sync.body, "bucket_type")),
            &text(get(&sync.body, "conflict_resolution")),
        );
        let there = create_bucket(&again, 64).unwrap();
        assert_eq!(there.bucket_type, config.bucket_type);
        assert_eq!(there.conflict_resolution, config.conflict_resolution);
    }
}

#[test]
fn changes_are_announced() {
    let created = bucket_created(&bucket_request("couchbase", "seqno"), false);
    assert_eq!(created.audit.unwrap().1, "Bucket 'b' created");
    let passed = created.request.unwrap();
    assert_eq!(passed.path, "/api/v1/buckets");
    assert!(!passed.delete);
    assert!(bucket_created(&bucket_request("couchbase", "seqno"), true).request.is_none());
    let deleted = bucket_deleted("b", false);
    assert_eq!(deleted.request.unwrap().path, "/api/v1/buckets/b");
    assert_eq!(text(get(&deleted.answer.unwrap(), "message")), "Bucket 'b' deleted");
    let req = CreateCollectionRequest { name: "c".to_string(), max_ttl: Some(5) };
    let made = collection_created("b", "s", &req, false);
    assert_eq!(text(get(&made.answer.unwrap(), "message")), "Collection 'c' created in scope 's'");
    let passed = made.request.unwrap();
    assert_eq!(passed.path, "/api/v1/buckets/b/scopes/s/collections");
    assert_eq!(text(get(&passed.body.unwrap(), "max_ttl")), "5");
}

#[test]
fn changes_go_to_the_others_that_are_up() {
    let mut nodes = vec![node("n1", "a", 1), node("n2", "b", 2), node("n3", "c", 3), node("n4", "d", 4)];
    nodes[2].status = NodeStatus::Warmup;
    nodes[3].status = NodeStatus::Failed;
    let urls: Vec<String> =
        replicate_to_cluster(&nodes, "n1", "/x").into_iter().map(|t| t.url).collect();
    assert_eq!(urls, vec!["http://b:2/x", "http://c:3/x"]);
}

fn scopes() -> Vec<ScopeResponse> {
    vec![
        ScopeResponse {
            name: "_default".to_string(),
            collections: vec!["_default".to_string(), "x".to_string()],
        },
        ScopeResponse {
            name: "s".to_string(),
            collections: vec!["_default".to_string(), "y".to_string()],
        },
    ]
}

#[test]
fn scopes_are_synced() {
    let urls: Vec<String> =
        sync_buckets_to_node("http://h:1", "b", &scopes()).into_iter().map(|r| r.url).collect();
    assert_eq!(
        urls,
        vec![
            "http://h:1/api/v1/buckets/b/scopes/_default/collections",
            "http://h:1/api/v1/buckets/b/scopes",
            "http://h:1/api/v1/buckets/b/scopes/s/collections",
        ]
    );
    assert_eq!(default_failover_type(), "graceful");
}

#[test]
fn scopes_are_restored() {
    let calls: Vec<String> = scope_calls(&scopes())
        .into_iter()
        .map(|c| match c {
            ScopeCall::CreateScope(s) => s,
            ScopeCall::CreateCollection(s, c) => format!("{}.{}", s, c),
        })
        .collect();
    assert_eq!(calls, vec!["_default.x", "s", "s._default", "s.y"]);
}

#[test]
fn backups_are_named_and_counted() {
    let req = CreateBackupRequest { name: None, buckets: None };
    assert_eq!(backup_name(&req, 1_700_000_000_000_000_000), "backup_20231114_221320");
    let named =
        CreateBackupRequest { name: Some("x".to_string()), buckets: Some(vec!["a".to_string()]) };
    assert_eq!(backup_name(&named, 0), "x");
    assert_eq!(buckets_to_backup(&named, &vec!["b".to_string()]), vec!["a"]);
    assert_eq!(buckets_to_backup(&req, &vec!["b".to_string()]), vec!["b"]);
    assert_eq!(backup_dir("data", "x"), "data/backups/x");
    let outcomes = vec![
        BucketOutcome::Done("a".to_string(), 3),
        BucketOutcome::PassedOver,
        BucketOutcome::Done("b".to_string(), 4),
    ];
    let report = create_backup("x", "data/backups/x", &outcomes, 0);
    assert_eq!(report.audit, "Backup 'x' created (2 buckets, 7 docs)");
    assert_eq!(text(get(&report.manifest, "total_documents")), "7");
    assert_eq!(text(get(item(get(&report.manifest, "buckets"), 1), "bucket")), "b");
    let restored = restore_backup("x", &outcomes).ok().unwrap();
    assert_eq!(restored.audit, "Backup 'x' restored (2 buckets, 7 docs)");
    let failed = vec![BucketOutcome::Failed("bad file".to_string())];
    let refusal = restore_backup("x", &failed).err().unwrap();
    assert_eq!((refusal.status, refusal.error.as_str()), (500, "bad file"));
    assert_eq!(backup_missing("x").error, "Backup 'x' not found");
    let some = RestoreRequest { buckets: Some(vec!["a".to_string()]) };
    assert!(is_restored(&some, "a") && !is_restored(&some, "b"));
    assert!(is_restored(&RestoreRequest { buckets: None }, "b"));
}
