use oxidedb::clock::hash_number;
use oxidedb::cluster::node::ClusterNode;
use oxidedb::cluster::ClusterManager;
use oxidedb::config::{CliArgs, ServerConfig};
use oxidedb::dcp::replicator::{
    can_expire, replicate_url, storage_mutation, IntraClusterReplicator, ReplicationBatch,
    MAX_TIME, MIN_TIME,
};
use oxidedb::dcp::stream::{
    generate_stream_id, stream_id, CreateStreamRequest, DcpEngine, DcpEvent, DcpEventType,
};
use oxidedb::document::Document;
use std::collections::hash_map::DefaultHasher;
use std::hash::{Hash, Hasher};

const NOW: i128 = 1_700_000_000_000_000_000;

fn stream_request(scope: Option<&str>) -> CreateStreamRequest {
    CreateStreamRequest {
        name: "s".to_string(),
        bucket: "b".to_string(),
        scope_filter: scope.map(|s| s.to_string()),
        collection_filter: None,
        from_seq_no: 0,
        include_backfill: false,
    }
}

fn mutation(engine: &mut DcpEngine, bucket: &str, scope: &str, vb: u16) -> DcpEvent {
    engine.publish_mutation_at(bucket, scope, "_default", "k", Some("1"), 7, vb, 0, NOW)
}

#[test]
fn sequence_numbers_ascend() {
    let mut engine = DcpEngine::new();
    let a = mutation(&mut engine, "b", "_default", 1);
    let b = mutation(&mut engine, "b", "_default", 1);
    let c = engine.publish_deletion_at("b", "_default", "_default", "k", 8, 1, NOW);
    assert!(a.seq_no < b.seq_no && b.seq_no < c.seq_no);
    assert_eq!(a.datatype, 1);
    assert_eq!(c.event_type, DcpEventType::Deletion);
    assert_eq!(c.value, None);
    assert!(a.timestamp.starts_with("2023-11-14T22:13:20"));
}

#[test]
fn streams_follow_their_filters_and_pause() {
    let mut engine = DcpEngine::new();
    let id = engine
        .create_stream_at(&stream_request(Some("s1")), None, "id-1".to_string(), NOW)
        .unwrap()
        .id;
    mutation(&mut engine, "b", "s1", 3);
    mutation(&mut engine, "b", "s2", 3);
    mutation(&mut engine, "other", "s1", 3);
    engine.publish_deletion_at("b", "s2", "_default", "k", 8, 3, NOW);
    assert_eq!(engine.get_stream(&id).unwrap().events_streamed, 1);
    engine.publish_deletion_at("b", "s1", "_default", "k", 8, 3, NOW);
    assert_eq!(engine.get_stream(&id).unwrap().events_streamed, 2);
    engine.pause_stream(&id).unwrap();
    mutation(&mut engine, "b", "s1", 3);
    assert_eq!(engine.get_stream(&id).unwrap().events_streamed, 2);
    engine.resume_stream(&id).unwrap();
    mutation(&mut engine, "b", "s1", 3);
    assert_eq!(engine.get_stream(&id).unwrap().events_streamed, 3);
    engine.close_stream(&id).unwrap();
    assert_eq!(engine.close_stream(&id).err().unwrap(), "Stream 'id-1' not found");
    assert!(engine.list_streams().is_empty());
}

#[test]
fn expirations_advance_their_streams() {
    let mut engine = DcpEngine::new();
    let id = engine
        .create_stream_at(&stream_request(Some("s1")), None, "id-1".to_string(), NOW)
        .unwrap()
        .id;
    engine.publish_expiration_at("b", "s2", "_default", "k", 8, 3, NOW);
    assert_eq!(engine.get_stream(&id).unwrap().events_streamed, 0);
    let event = engine.publish_expiration_at("b", "s1", "_default", "k", 8, 3, NOW);
    assert_eq!(event.event_type, DcpEventType::Expiration);
    assert_eq!(engine.get_stream(&id).unwrap().events_streamed, 1);
}

#[test]
fn times_keep_their_nanoseconds() {
    let mut engine = DcpEngine::new();
    let at = NOW + 123_456_789;
    let event = engine.publish_deletion_at("b", "s", "c", "k", 8, 3, at);
    assert_eq!(event.timestamp, "2023-11-14T22:13:20.123456789+00:00");
    let event = engine.publish_deletion_at("b", "s", "c", "k", 8, 3, -1);
    assert_eq!(event.timestamp, "1969-12-31T23:59:59.999999999+00:00");
}

#[test]
fn stream_names_hash_the_time() {
    for n in [0u128, 1, 255, 256, 1_700_000_000_000_000_000, u128::MAX] {
        let mut h = DefaultHasher::new();
        n.hash(&mut h);
        assert_eq!(hash_number(n), h.finish());
    }
    assert_eq!(stream_id(0x2a), "dcp-000000000000002a");
    let id = generate_stream_id();
    assert!(id.starts_with("dcp-"));
    assert_eq!(id.len(), 20);
}

#[test]
fn streams_of_missing_buckets_are_refused() {
    let mut engine = DcpEngine::new();
    let error = engine.create_stream(&stream_request(None), Some("Bucket 'b' not found"));
    assert_eq!(error.err().unwrap(), "Bucket error: Bucket 'b' not found");
    let one = engine.create_stream(&stream_request(None), None).ok().unwrap();
    let two = engine.create_stream(&stream_request(None), None).ok().unwrap();
    assert_ne!(one.id, two.id);
}

#[test]
fn backfill_sends_the_present_documents() {
    let mut engine = DcpEngine::new();
    let doc = Document {
        key: "k".to_string(),
        value: "1".to_string(),
        cas: 5,
        rev_id: 1,
        seq_no: 2,
        expiry: None,
        flags: 0,
        vbucket_id: 3,
        created_at: NOW,
        updated_at: NOW,
        deleted: false,
    };
    let events = engine.backfill("b", None, None, &vec![doc], NOW);
    assert_eq!(events.len(), 1);
    assert_eq!(events[0].key, "k");
    assert_eq!(events[0].value, Some("1".to_string()));
}

fn cluster() -> ClusterManager {
    let mut args = CliArgs::default();
    args.num_vbuckets = 4;
    let config: ServerConfig = args.into();
    let mut m = ClusterManager::new_at(&config, "u".to_string(), "g".to_string(), NOW);
    let other =
        ClusterNode::new_self_at("node-2".to_string(), "10.0.0.2".to_string(), 8091, NOW);
    m.add_node_at(other, NOW).unwrap();
    m
}

#[test]
fn only_the_owner_replicates() {
    let m = cluster();
    let mut engine = DcpEngine::new();
    let map = m.get_partition_map();
    let mine = map.active_vbuckets_for("node-1")[0];
    let theirs = map.active_vbuckets_for("node-2")[0];
    let r = IntraClusterReplicator::new("node-1".to_string());
    let event = mutation(&mut engine, "b", "_default", mine);
    let plan = r.plan_replication(&m, &event).unwrap();
    assert_eq!(plan.targets.len(), 1);
    assert_eq!(plan.targets[0].0, "node-2");
    assert_eq!(plan.mutation.key, "k");
    let event = mutation(&mut engine, "b", "_default", theirs);
    assert!(r.plan_replication(&m, &event).is_none());
    assert_eq!(replicate_url("http://h:1"), "http://h:1/api/v1/internal/replicate");
}

#[test]
fn acknowledgements_cover_what_was_taken() {
    let m = cluster();
    let mut engine = DcpEngine::new();
    let mine = m.get_partition_map().active_vbuckets_for("node-1")[0];
    let mut r = IntraClusterReplicator::new("node-1".to_string());
    let one = r.plan_replication(&m, &mutation(&mut engine, "b", "_default", mine)).unwrap();
    let two = r.plan_replication(&m, &mutation(&mut engine, "b", "_default", mine)).unwrap();
    let seq = one.mutation.seq_no;
    let batch = ReplicationBatch {
        source_node: "node-1".to_string(),
        mutations: vec![one.mutation, two.mutation],
    };
    let ack = r.receive_batch(&batch, &vec![true, false]);
    assert_eq!((ack.applied, ack.rejected), (1, 1));
    assert_eq!(ack.vbucket_acks.get(mine), Some(&seq));
    r.record_sent(mine, "node-2", seq);
    r.record_failure(mine);
    let status = r.get_status();
    assert_eq!((status.total_replicated, status.total_errors), (1, 1));
    assert_eq!(status.vbucket_progress.len(), 1);
    let stored = storage_mutation(&batch.mutations[0], NOW);
    assert_eq!(stored.value, "1");
    assert_eq!(stored.vbucket_id, mine);
    assert_eq!(stored.expiry, None);
    assert_eq!(stored.updated_at, NOW);
    assert_eq!(stored.xattrs.len(), 0);
    let mut dated = batch.mutations[1].copy();
    dated.expiry = 90;
    assert_eq!(storage_mutation(&dated, NOW).expiry, Some(NOW + 90_000_000_000));
    dated.expiry = u64::MAX;
    assert_eq!(storage_mutation(&dated, NOW).expiry, Some(NOW - 1_000_000_000));
    assert!(can_expire(0, MAX_TIME));
    assert!(can_expire(90, NOW));
    assert!(!can_expire(1, MAX_TIME));
    assert!(!can_expire(u64::MAX, MIN_TIME));
    assert!(!can_expire(i64::MAX as u64, NOW));
}
