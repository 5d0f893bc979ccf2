use oxidedb::document::Document;
use oxidedb::error::NosqlError;
use oxidedb::memcached::handler::{Found, KvHandler, KvKind, Outcome, StorageOp};
use oxidedb::memcached::protocol::{Opcode, PacketHeader, Request, Status};
use oxidedb::memcached::subdoc::{
    lookup_query, mutation_call, parse_subdoc_lookup_specs, parse_subdoc_mutation_specs,
    LookupAnswer, LookupQuery, MutationCall,
};

fn request(opcode: Opcode, extras: &[u8], key: &[u8], value: &[u8]) -> Request {
    Request {
        header: PacketHeader {
            magic: 0x80,
            opcode,
            key_length: key.len() as u16,
            extras_length: extras.len() as u8,
            data_type: 0,
            vbucket_or_status: 0,
            total_body_length: (extras.len() + key.len() + value.len()) as u32,
            opaque: 1,
            cas: 0,
        },
        extras: extras.to_vec(),
        key: key.to_vec(),
        value: value.to_vec(),
    }
}

fn document(value: &str) -> Document {
    Document {
        key: "k".to_string(),
        value: value.to_string(),
        cas: 77,
        rev_id: 1,
        seq_no: 5,
        expiry: None,
        flags: 3,
        vbucket_id: 9,
        created_at: 0,
        updated_at: 0,
        deleted: false,
    }
}

#[test]
fn a_document_is_answered_with_flags_and_cas() {
    let handler = KvHandler::new();
    let req = request(Opcode::Get, &[], b"k", b"");
    let found = Outcome::Done(Found { doc: document("{\"a\":1}"), expired: false });
    let resp = handler.handle_get(&req, false, &found);
    assert_eq!(resp.header.vbucket_or_status, Status::Success.to_u16());
    assert_eq!(resp.header.cas, 77);
    assert_eq!(resp.extras, vec![0, 0, 0, 3]);
    assert_eq!(resp.value, b"{\"a\":1}".to_vec());
    assert!(resp.key.is_empty());
    assert_eq!(handler.handle_get(&req, true, &found).key, b"k".to_vec());
}

#[test]
fn misses_and_missing_buckets() {
    let handler = KvHandler::new();
    let req = request(Opcode::Get, &[], b"k", b"");
    let miss = Outcome::Failed(NosqlError::DocumentNotFound("k".to_string()));
    let resp = handler.handle_get(&req, false, &miss);
    assert_eq!(resp.header.vbucket_or_status, Status::KeyNotFound.to_u16());
    let resp = handler.handle_get(&req, false, &Outcome::NoBucket);
    assert_eq!(resp.header.vbucket_or_status, Status::NoBucket.to_u16());
    let empty = request(Opcode::Get, &[], b"", b"");
    assert!(handler.plan(KvKind::Get, &empty, 0).is_none());
    let resp = handler.handle_get(&empty, false, &miss);
    assert_eq!(resp.header.vbucket_or_status, Status::InvalidArguments.to_u16());
}

#[test]
fn writes_are_planned_from_the_packet() {
    let handler = KvHandler::new();
    let mut extras = 7u32.to_be_bytes().to_vec();
    extras.extend_from_slice(&60u32.to_be_bytes());
    let req = request(Opcode::SetKey, &extras, b"k", b" {\"b\": 2} ");
    match handler.plan(KvKind::Upsert, &req, 1_000_000_000_000) {
        Some(StorageOp::Upsert { key, value, expiry }) => {
            assert_eq!(key, "k");
            assert_eq!(value, "{\"b\":2}");
            assert_eq!(expiry, Some(60));
        }
        other => panic!("{:?}", other),
    }
}

#[test]
fn counters_carry_the_new_value() {
    let handler = KvHandler::new();
    let mut extras = 5u64.to_be_bytes().to_vec();
    extras.extend_from_slice(&10u64.to_be_bytes());
    extras.extend_from_slice(&0u32.to_be_bytes());
    let req = request(Opcode::Increment, &extras, b"k", b"");
    match handler.plan(KvKind::Increment, &req, 0) {
        Some(StorageOp::Counter { delta, initial, create, .. }) => {
            assert_eq!((delta, initial, create), (5, 10, true));
        }
        other => panic!("{:?}", other),
    }
    let resp = handler.handle_increment(&req, &Outcome::Done((document("15"), 15)));
    assert_eq!(resp.value, 15u64.to_be_bytes().to_vec());
}

#[test]
fn adding_is_blocked_by_a_live_document() {
    let handler = KvHandler::new();
    let live = Outcome::Done(Found { doc: document("1"), expired: false });
    let gone = Outcome::Done(Found { doc: document("1"), expired: true });
    assert!(handler.add_is_blocked(&live));
    assert!(!handler.add_is_blocked(&gone));
    let req = request(Opcode::Add, &[0; 8], b"k", b"1");
    let resp = handler.handle_add(&req, true, &Outcome::NoBucket);
    assert_eq!(resp.header.vbucket_or_status, Status::KeyExists.to_u16());
}

fn lookup_spec(opcode: u8, path: &str) -> Vec<u8> {
    let mut out = vec![opcode, 0];
    out.extend_from_slice(&(path.len() as u16).to_be_bytes());
    out.extend_from_slice(path.as_bytes());
    out
}

#[test]
fn lookups_of_parts_are_answered_one_by_one() {
    let handler = KvHandler::new();
    let mut body = lookup_spec(0xc5, "name");
    body.extend(lookup_spec(0xc6, "age"));
    let specs = parse_subdoc_lookup_specs(&body);
    assert_eq!(specs.len(), 2);
    assert_eq!(specs[0].path, "name");
    assert_eq!(lookup_query(&specs[0]), LookupQuery::Get);
    assert_eq!(lookup_query(&specs[1]), LookupQuery::Exists);
    let req = request(Opcode::SubdocMultiLookup, &[], b"k", &body);
    let found = Outcome::Done(Found { doc: document("{}"), expired: false });
    let answers =
        vec![LookupAnswer::Value("\"Bo\"".to_string()), LookupAnswer::Present(true)];
    let resp = handler.handle_subdoc_multi_lookup(&req, &found, &answers);
    assert_eq!(resp.header.cas, 77);
    assert_eq!(resp.value[..2].to_vec(), vec![0, 0]);
    assert_eq!(resp.value[2..6].to_vec(), 4u32.to_be_bytes().to_vec());
    assert_eq!(resp.value[6..10].to_vec(), b"\"Bo\"".to_vec());
}

#[test]
fn mutations_of_parts_are_read() {
    let mut body = vec![0xc8, 0];
    body.extend_from_slice(&1u16.to_be_bytes());
    body.extend_from_slice(&3u32.to_be_bytes());
    body.extend_from_slice(b"a");
    body.extend_from_slice(b"[1]");
    let specs = parse_subdoc_mutation_specs(&body);
    assert_eq!(specs.len(), 1);
    assert_eq!(specs[0].path, "a");
    assert_eq!(specs[0].value, "[1]");
    assert_eq!(mutation_call(&specs[0]), MutationCall::DictUpsert);
}

#[test]
fn writes_have_effects() {
    let handler = KvHandler::new();
    let set = request(Opcode::SetKey, &[0, 0, 0, 9, 0, 0, 0, 0], b"k", b"1");
    let effects = handler.effects(KvKind::Upsert, &set);
    assert_eq!(effects.flags, Some(9));
    assert!(effects.buffered && effects.announce_upsert && !effects.announce_delete);
    let effects = handler.effects(KvKind::Delete, &request(Opcode::Delete, &[], b"k", b""));
    assert_eq!(effects.flags, None);
    assert!(effects.buffered && !effects.announce_upsert && effects.announce_delete);
    let effects = handler.effects(KvKind::Get, &request(Opcode::Get, &[], b"k", b""));
    assert!(!effects.buffered && !effects.announce_upsert && !effects.announce_delete);
}
