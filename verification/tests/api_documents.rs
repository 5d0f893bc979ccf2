use oxidedb::api::document_list::{
    bucket_stats, can_list, can_preview, list_documents, truncate_json_preview, BucketCounts, StoredDocument,
};
use oxidedb::api::document_routes::{
    begin_durable_write, check_partition, delete_url, document_written, durability_wait_is_over,
    forward_error, forward_to, get_document, touch_url, upsert_document, write_call, Access,
    DocumentResponse, ForwardFailure, Forwarded, ListDocsParams, UpsertDocumentRequest, UpsertPlan,
    WriteCall,
};
use oxidedb::api::query_routes::{
    execute_query, gather, QueryMetrics, QueryPlan, QueryResult,
};
use oxidedb::auth::middleware::authenticate_request;
use oxidedb::auth::rbac::RbacManager;
use oxidedb::cluster::durability::{DurabilityLevel, DurabilityManager, DurabilityRequirement};
use oxidedb::cluster::node::ClusterNode;
use oxidedb::cluster::partition::PartitionMap;
use oxidedb::cluster::ClusterManager;
use oxidedb::config::{CliArgs, ServerConfig};
use oxidedb::dcp::stream::DcpEngine;
use oxidedb::document::Document;
use oxidedb::error::NosqlError;
use oxidedb::fts::engine::FtsEngine;
use oxidedb::json::Json;

const NOW: i128 = 1_700_000_000_000_000_000;

fn document(key: &str, vb: u16) -> Document {
    Document {
        key: key.to_string(),
        value: "{\"a\":1}".to_string(),
        cas: 5,
        rev_id: 1,
        seq_no: 2,
        expiry: Some(NOW + 90_500_000_000),
        flags: 0,
        vbucket_id: vb,
        created_at: NOW,
        updated_at: NOW,
        deleted: false,
    }
}

fn stored(key: &str, vb: u16) -> StoredDocument {
    StoredDocument { document: document(key, vb), value: Json::Null }
}

fn cluster() -> ClusterManager {
    let mut args = CliArgs::default();
    args.num_vbuckets = 4;
    let config: ServerConfig = args.into();
    let mut m = ClusterManager::new_at(&config, "u".to_string(), "g".to_string(), NOW);
    let other =
        ClusterNode::new_self_at("node-2".to_string(), "10.0.0.2".to_string(), 9000, NOW);
    m.add_node_at(other, NOW).unwrap();
    m
}

#[test]
fn long_values_are_cut_in_previews() {
    let long = "x".repeat(61);
    let value = Json::Object(vec![
        ("a".to_string(), Json::Text(long)),
        ("b".to_string(), Json::Object(vec![])),
        ("c".to_string(), Json::Array(vec![Json::Null, Json::Null])),
        ("d".to_string(), Json::Bool(true)),
        ("e".to_string(), Json::Null),
    ]);
    assert!(can_preview(&value, 3));
    match truncate_json_preview(&value, 3) {
        Json::Object(m) => {
            let texts: Vec<String> = m
                .iter()
                .map(|(k, v)| match v {
                    Json::Text(t) => format!("{}={}", k, t),
                    other => panic!("{:?}", other),
                })
                .collect();
            assert_eq!(
                texts,
                vec![
                    format!("a={}...", "x".repeat(57)),
                    "b={...}".to_string(),
                    "c=[2 items]".to_string(),
                    "...=2 more fields".to_string(),
                ]
            );
        }
        other => panic!("{:?}", other),
    }
    let cut_inside = Json::Object(vec![("a".to_string(), Json::Text("é".repeat(40)))]);
    assert!(!can_preview(&cut_inside, 3));
}

#[test]
fn a_member_called_dots_gives_way() {
    let value = Json::Object(vec![
        ("...".to_string(), Json::Bool(true)),
        ("b".to_string(), Json::Bool(true)),
    ]);
    match truncate_json_preview(&value, 1) {
        Json::Object(m) => {
            assert_eq!(m.len(), 1);
            match &m[0].1 {
                Json::Text(t) => assert_eq!(t, "1 more fields"),
                other => panic!("{:?}", other),
            }
        }
        other => panic!("{:?}", other),
    }
}

fn params(limit: Option<usize>, offset: Option<usize>, prefix: Option<&str>) -> ListDocsParams {
    ListDocsParams { limit, offset, prefix: prefix.map(|p| p.to_string()) }
}

#[test]
fn lists_come_page_by_page() {
    let docs = vec![stored("b2", 1), stored("a1", 0), stored("b1", 0), stored("c", 3)];
    let keys = |owned: Option<Vec<u16>>, p: ListDocsParams| -> (Vec<String>, usize, bool) {
        let r = list_documents(&docs, &owned, &p);
        (r.documents.into_iter().map(|d| d.key).collect(), r.total, r.has_more)
    };
    let list = |v: &[&str]| -> Vec<String> { v.iter().map(|s| s.to_string()).collect() };
    assert_eq!(keys(None, params(None, None, None)), (list(&["a1", "b1", "b2", "c"]), 4, false));
    assert_eq!(keys(None, params(Some(2), Some(1), None)), (list(&["b1", "b2"]), 4, true));
    assert_eq!(keys(None, params(Some(2), Some(9), None)), (list(&[]), 4, false));
    assert_eq!(keys(None, params(None, None, Some("b"))), (list(&["b1", "b2"]), 2, false));
    assert_eq!(keys(Some(vec![0]), params(None, None, None)), (list(&["a1", "b1"]), 2, false));
    assert_eq!(list_documents(&docs, &None, &params(Some(9999), None, None)).limit, 500);
    assert_eq!(list_documents(&docs, &None, &params(None, None, None)).limit, 50);
    let first = &list_documents(&docs, &None, &params(None, None, None)).documents[0];
    assert_eq!(first.size_bytes, 7);
    assert!(first.updated_at.starts_with("2023-11-14T22:13:20"));
}

#[test]
fn only_the_page_has_to_be_cut() {
    let mut docs = vec![stored("a", 0), stored("b", 1)];
    docs[1].value = Json::Object(vec![("x".to_string(), Json::Text("é".repeat(40)))]);
    assert!(!can_list(&docs, &None, &params(None, None, None)));
    assert!(can_list(&docs, &None, &params(Some(1), None, None)));
    assert!(!can_list(&docs, &None, &params(Some(1), Some(1), None)));
    assert!(can_list(&docs, &None, &params(None, None, Some("a"))));
    assert!(can_list(&docs, &Some(vec![0]), &params(None, None, None)));
    let page = list_documents(&docs, &None, &params(Some(1), None, None));
    assert_eq!((page.documents.len(), page.total, page.has_more), (1, 2, true));
}

#[test]
fn statistics_count_what_is_owned() {
    let map = PartitionMap::new(4, 1, &vec!["n1".to_string(), "n2".to_string()]);
    let owned = map.active_vbuckets_for("n1");
    let counts = BucketCounts {
        document_count: 10,
        size_bytes: 99,
        num_vbuckets: 4,
        high_seq_nos: vec![(0, 7), (1, 0), (2, 9)],
        doc_counts: vec![(0, 1), (1, 2), (2, 3), (3, 4)],
    };
    let want: usize =
        counts.doc_counts.iter().filter(|c| owned.contains(&c.0)).map(|c| c.1).sum();
    match bucket_stats("b", &counts, &map, "n1") {
        Json::Object(m) => {
            let number = |name: &str| match &m.iter().find(|x| x.0 == name).unwrap().1 {
                Json::Number(n) => n.clone(),
                other => panic!("{:?}", other),
            };
            assert_eq!(number("local_document_count"), want.to_string());
            assert_eq!(number("max_sequence_number"), "9");
            match &m.iter().find(|x| x.0 == "vbucket_seq_nos").unwrap().1 {
                Json::Array(items) => assert_eq!(items.len(), 2),
                other => panic!("{:?}", other),
            }
        }
        other => panic!("{:?}", other),
    }
}

#[test]
fn documents_are_served_by_their_owner() {
    let m = cluster();
    let map = m.get_partition_map();
    let mine = map.active_vbuckets_for("node-1")[0];
    let theirs = map.active_vbuckets_for("node-2")[0];
    assert_eq!(check_partition(&m, mine).unwrap(), None);
    assert_eq!(check_partition(&m, theirs).unwrap(), Some("http://10.0.0.2:9000".to_string()));
    match forward_to(&m, 4) {
        Err(NosqlError::Internal(t)) => assert_eq!(t, "No active node for vBucket 4"),
        _ => panic!(),
    }
    assert_eq!(
        delete_url("http://h", "b", "s", "c", "k", Some(9)),
        "http://h/api/v1/docs/b/scopes/s/collections/c/docs/k?cas=9"
    );
    assert!(touch_url("http://h", "b", "s", "c", "k").ends_with("/docs/k/touch"));
}

#[test]
fn forwarding_fails_with_a_reason() {
    let text = |e: NosqlError| e.to_text();
    assert_eq!(
        text(forward_error(Forwarded::Get, "k", &ForwardFailure::Refused(404, None))),
        "Document 'k' not found"
    );
    assert_eq!(
        text(forward_error(Forwarded::Put, "k", &ForwardFailure::Refused(404, None))),
        "Internal error: Remote node error: Unknown error"
    );
    assert_eq!(
        text(forward_error(
            Forwarded::Delete,
            "k",
            &ForwardFailure::Refused(500, Some("no".to_string()))
        )),
        "Internal error: Remote node error: no"
    );
    assert_eq!(
        text(forward_error(Forwarded::Touch, "k", &ForwardFailure::NotSent("x".to_string()))),
        "Internal error: Forward TOUCH failed: x"
    );
    assert_eq!(
        text(forward_error(Forwarded::Touch, "k", &ForwardFailure::Unreadable("x".to_string()))),
        "Internal error: Forward response error: x"
    );
    assert_eq!(
        text(forward_error(Forwarded::Get, "k", &ForwardFailure::Unreadable("x".to_string()))),
        "Internal error: Forward response parse error: x"
    );
}

fn write_request(cas: Option<u64>) -> UpsertDocumentRequest {
    UpsertDocumentRequest {
        value: "1".to_string(),
        expiry: Some(60),
        flags: None,
        cas,
        durability_level: Some(DurabilityLevel::Majority),
        durability_timeout_ms: None,
    }
}

#[test]
fn requests_are_let_through_and_planned() {
    let rbac = RbacManager::new();
    let admin = authenticate_request(&rbac, None).ok().unwrap();
    let m = cluster();
    let map = m.get_partition_map();
    let mine = map.active_vbuckets_for("node-1")[0];
    let theirs = map.active_vbuckets_for("node-2")[0];
    match get_document(&admin, &rbac, &m, "b", Ok(theirs)) {
        Ok(Access::There(url)) => assert_eq!(url, "http://10.0.0.2:9000"),
        _ => panic!(),
    }
    match get_document(&admin, &rbac, &m, "b", Err(NosqlError::BucketNotFound("b".to_string()))) {
        Err(e) => assert_eq!(e.to_text(), "Bucket 'b' not found"),
        _ => panic!(),
    }
    match upsert_document(&admin, &rbac, &m, "b", Ok(mine), &write_request(Some(4))) {
        Ok(UpsertPlan::Write(WriteCall::Replace(4), d)) => {
            assert_eq!(d.level, DurabilityLevel::Majority);
            assert_eq!(d.timeout_ms, 2500);
        }
        other => panic!("{:?}", other.is_ok()),
    }
    match write_call(&write_request(None)) {
        WriteCall::Upsert(Some(60)) => {}
        other => panic!("{:?}", other),
    }
}

#[test]
fn durable_writes_wait_for_replicas() {
    let names = vec!["n1".to_string(), "n2".to_string()];
    let map = PartitionMap::new(4, 1, &names);
    let mut d = DurabilityManager::new();
    let doc = document("k", 0);
    let majority = DurabilityRequirement { level: DurabilityLevel::Majority, timeout_ms: 10 };
    let waiting = begin_durable_write(&mut d, &map, &doc, majority);
    assert_eq!(waiting, map.map[0].replica_nodes);
    assert_eq!(d.pending_count(), 1);
    let other = document("other", 2);
    assert!(!durability_wait_is_over(&d, &doc, 9, 10, 1));
    assert!(durability_wait_is_over(&d, &doc, 10, 10, 1));
    assert!(durability_wait_is_over(&d, &doc, 0, 10, 0));
    assert!(durability_wait_is_over(&d, &other, 0, 10, 1));
    assert!(d.is_pending(0, 5));
    assert!(!d.is_pending(0, 6));
    assert!(!d.is_pending(2, 5));
    begin_durable_write(&mut d, &map, &other, majority);
    assert!(!durability_wait_is_over(&d, &other, 0, 10, 1));
    let replica = waiting[0].clone();
    assert_eq!(d.ack_replica(0, 5, &replica), Some(true));
    assert!(durability_wait_is_over(&d, &doc, 0, 10, 1));
    assert!(!durability_wait_is_over(&d, &other, 0, 10, 1));
    let none = DurabilityRequirement { level: DurabilityLevel::NoDurability, timeout_ms: 10 };
    assert!(begin_durable_write(&mut d, &map, &document("q", 1), none).is_empty());
    assert_eq!(d.pending_count(), 1);
}

#[test]
fn written_documents_are_told_to_streams() {
    let mut dcp = DcpEngine::new();
    let mut fts = FtsEngine::new();
    let doc = document("k", 2);
    let event = document_written(&mut dcp, &mut fts, "b", "s", "c", &doc, &Json::Null, NOW);
    assert_eq!(event.key, "k");
    assert_eq!(event.expiry, 90);
    let out = DocumentResponse::from_doc(doc, "n1".to_string());
    assert_eq!(out.served_by, "n1");
    assert_eq!(out.expiry.unwrap(), "2023-11-14T22:14:50.500+00:00");
}

fn result(rows: &[&str], scanned: usize) -> QueryResult {
    QueryResult {
        status: "success".to_string(),
        results: rows.iter().map(|v| v.to_string()).collect(),
        metrics: QueryMetrics {
            result_count: rows.len(),
            elapsed_ms: 1,
            scanned_count: scanned,
            index_used: None,
        },
    }
}

#[test]
fn answers_of_all_nodes_are_gathered() {
    let local = result(&["{\"id\":\"a\"}", "2"], 3);
    let remote = vec![result(&["{\"id\":\"a\"}", "3", "2"], 4), result(&["2"], 1)];
    let all = gather(local, &remote, 9);
    let rows = vec!["{\"id\":\"a\"}", "2", "{\"id\":\"a\"}", "3", "2", "2"];
    assert_eq!(all.results, rows);
    assert_eq!(all.metrics.result_count, 6);
    assert_eq!(all.metrics.scanned_count, 8);
    assert_eq!(all.metrics.elapsed_ms, 9);
}

#[test]
fn queries_are_scattered_once() {
    let rbac = RbacManager::new();
    let admin = authenticate_request(&rbac, None).ok().unwrap();
    let nodes = cluster().list_nodes();
    match execute_query(&admin, &rbac, None, &nodes, "node-1") {
        Ok(QueryPlan::Scatter(list)) => {
            assert_eq!(list.len(), 1);
            assert_eq!(list[0].1, "http://10.0.0.2:9000/api/v1/query");
        }
        _ => panic!(),
    }
    match execute_query(&admin, &rbac, Some("child"), &nodes, "node-1") {
        Ok(QueryPlan::Local) => {}
        _ => panic!(),
    }
}
