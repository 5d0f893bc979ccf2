use oxidedb::memcached::handler::KvKind;
use oxidedb::memcached::protocol::{HelloFeature, Opcode, PacketHeader, Request, Response, Status};
use oxidedb::memcached::server::{
    build_collections_manifest, handle_flush, handle_get_cluster_config, handle_get_manifest,
    handle_hello, handle_sasl_auth, handle_select_bucket, handle_stat, open_request, pack_response,
    process_request, should_send, ConnectionState, ScopeEntry, Step,
};

fn request(opcode: Opcode, key: &[u8], value: &[u8]) -> Request {
    Request {
        header: PacketHeader {
            magic: 0x80,
            opcode,
            key_length: key.len() as u16,
            extras_length: 0,
            data_type: 0,
            vbucket_or_status: 0,
            total_body_length: (key.len() + value.len()) as u32,
            opaque: 42,
            cas: 0,
        },
        extras: Vec::new(),
        key: key.to_vec(),
        value: value.to_vec(),
    }
}

fn only(step: Step) -> Response {
    match step {
        Step::Respond(mut list) => {
            assert_eq!(list.len(), 1);
            list.remove(0)
        }
        other => panic!("no answer: {:?}", other),
    }
}

#[test]
fn key_value_requests_need_a_bucket() {
    let req = request(Opcode::Get, b"k", b"");
    let resp = only(process_request(&req, false));
    assert_eq!(resp.header.vbucket_or_status, Status::NoBucket.to_u16());
    assert_eq!(resp.value, b"No bucket selected".to_vec());
    match process_request(&req, true) {
        Step::Kv { kind, return_key } => {
            assert_eq!(kind, KvKind::Get);
            assert!(!return_key);
        }
        other => panic!("{:?}", other),
    }
}

#[test]
fn greetings_are_left_to_the_connection() {
    for selected in [false, true] {
        match process_request(&request(Opcode::Hello, b"client", b""), selected) {
            Step::Hello => {}
            other => panic!("{:?}", other),
        }
    }
}

#[test]
fn fixed_answers() {
    let version = only(process_request(&request(Opcode::Version, b"", b""), false));
    assert_eq!(version.value, b"OxideDB 0.3.0 (Couchbase-compatible)".to_vec());
    let mechs = only(process_request(&request(Opcode::SaslListMechs, b"", b""), false));
    assert_eq!(mechs.value, b"SCRAM-SHA512 SCRAM-SHA256 PLAIN".to_vec());
    let unknown = only(process_request(&request(Opcode::Unknown, b"", b""), true));
    assert_eq!(unknown.header.vbucket_or_status, Status::UnknownCommand.to_u16());
    match process_request(&request(Opcode::QuitQ, b"", b""), true) {
        Step::Respond(list) => assert!(list.is_empty()),
        other => panic!("{:?}", other),
    }
}

#[test]
fn quiet_requests_are_silent_only_when_all_is_well() {
    let fine = Response::new(Opcode::SetQ, Status::Success, 1);
    let bad = Response::new(Opcode::SetQ, Status::InternalError, 1);
    assert!(!should_send(Opcode::SetQ, &fine));
    assert!(should_send(Opcode::SetQ, &bad));
    assert!(should_send(Opcode::SetKey, &fine));
    let miss = Response::new(Opcode::GetQ, Status::KeyNotFound, 1);
    assert!(!should_send(Opcode::GetQ, &miss));
}

#[test]
fn compressed_values_come_back() {
    let text = "abcdefgh".repeat(200).into_bytes();
    let resp = Response::new(Opcode::Get, Status::Success, 1).with_value(text.clone());
    let packed = pack_response(resp, true);
    assert!(packed.value.len() < text.len());
    assert_eq!(packed.header.data_type & 2, 2);
    let mut req = request(Opcode::SetKey, b"k", &packed.value);
    req.header.data_type = packed.header.data_type;
    let opened = open_request(req);
    assert_eq!(opened.value, text);
    assert_eq!(opened.header.data_type & 2, 0);
    let plain = Response::new(Opcode::Get, Status::Success, 1).with_value(text.clone());
    assert_eq!(pack_response(plain, false).value, text);
}

#[test]
fn hello_agrees_on_known_features() {
    let mut state = ConnectionState::new();
    let mut value = Vec::new();
    for f in [HelloFeature::Snappy.to_u16(), HelloFeature::Json.to_u16(), 0x7777] {
        value.extend_from_slice(&f.to_be_bytes());
    }
    let resp = handle_hello(&request(Opcode::Hello, b"client/1", &value), &mut state);
    let agreed: Vec<u16> =
        resp.value.chunks(2).map(|c| u16::from_be_bytes([c[0], c[1]])).collect();
    assert!(agreed.contains(&HelloFeature::Snappy.to_u16()));
    assert!(!agreed.contains(&0x7777));
    assert!(state.snappy_enabled);
    assert_eq!(state.user_agent, Some("client/1".to_string()));
}

#[test]
fn plain_authentication_takes_name_and_password() {
    let mut state = ConnectionState::new();
    let resp = handle_sasl_auth(&request(Opcode::SaslAuth, b"PLAIN", b"\0user\0pass"), &mut state);
    assert_eq!(resp.header.vbucket_or_status, Status::Success.to_u16());
    assert!(state.authenticated);
    assert_eq!(state.username, Some("user".to_string()));
    let mut other = ConnectionState::new();
    let first = b"n,,n=user,r=abc";
    let resp = handle_sasl_auth(&request(Opcode::SaslAuth, b"SCRAM-SHA256", first), &mut other);
    assert_eq!(resp.header.vbucket_or_status, Status::AuthContinue.to_u16());
    assert!(!other.authenticated);
    assert!(other.scram_state.is_some());
}

#[test]
fn buckets_are_selected_if_they_exist() {
    let mut state = ConnectionState::new();
    let req = request(Opcode::SelectBucket, b"travel", b"");
    let resp = handle_select_bucket(&req, &mut state, false);
    assert_eq!(resp.value, b"Bucket 'travel' not found".to_vec());
    assert_eq!(state.selected_bucket, None);
    handle_select_bucket(&req, &mut state, true);
    assert_eq!(state.selected_bucket, Some("travel".to_string()));
}

#[test]
fn manifests_and_configurations() {
    let scopes = vec![ScopeEntry {
        name: "s\"1".to_string(),
        collections: vec!["a".to_string(), "b".to_string()],
    }];
    let text = build_collections_manifest(&scopes);
    let value = text.parse::<serde_json::Value>().unwrap();
    assert_eq!(value["scopes"][0]["name"], "s\"1");
    assert_eq!(value["scopes"][0]["collections"][1]["name"], "b");
    let req = request(Opcode::GetCollectionsManifest, b"", b"");
    assert_eq!(handle_get_manifest(&req, Some(&scopes)).value, text.into_bytes());
    let config = handle_get_cluster_config(&request(Opcode::GetClusterConfig, b"", b""), "{}");
    assert_eq!(config.value, b"{}".to_vec());
}

#[test]
fn statistics_end_with_an_empty_packet() {
    let list = handle_stat(&request(Opcode::Stat, b"", b""), Some((12, 1024)));
    let last = list.last().unwrap();
    assert!(last.key.is_empty() && last.value.is_empty());
    assert!(list.iter().any(|r| r.key == b"curr_items".to_vec() && r.value == b"12".to_vec()));
    assert_eq!(handle_flush(&request(Opcode::FlushQ, b"", b"")).len(), 0);
    assert_eq!(handle_flush(&request(Opcode::Flush, b"", b"")).len(), 1);
}
