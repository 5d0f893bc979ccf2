use oxidedb::config::{CliArgs, ServerConfig};
use oxidedb::error::NosqlError;
use oxidedb::hex::{hex_decode, hex_encode};
use oxidedb::text::{dec_text, parse_u32, text_before};
use oxidedb::text_split::{has_prefix, split_on};

#[test]
fn decimal_numbers_read_back() {
    for n in [0u32, 7, 10, 4096, u32::MAX] {
        assert_eq!(parse_u32(&dec_text(n as u64)), Some(n));
    }
    assert_eq!(dec_text(u64::MAX), "18446744073709551615");
    assert_eq!(parse_u32("4294967296"), None);
    assert_eq!(parse_u32(""), None);
    assert_eq!(parse_u32("12x"), None);
}

#[test]
fn hexadecimal_reads_back() {
    let bytes = vec![0u8, 1, 15, 16, 171, 255];
    let text = hex_encode(&bytes);
    assert_eq!(text, "00010f10abff");
    assert_eq!(hex_decode(&text), Some(bytes));
    assert_eq!(hex_decode("abc"), None);
    assert_eq!(hex_decode("zz"), None);
}

#[test]
fn texts_are_split_and_ordered() {
    assert_eq!(split_on("a.b..c", '.'), vec!["a", "b", "", "c"]);
    assert_eq!(split_on("", '.'), vec![""]);
    assert!(has_prefix("statement=SELECT", "statement="));
    assert!(!has_prefix("state", "statement="));
    assert!(text_before("node-10", "node-2"));
    assert!(text_before("a", "ab"));
    assert!(!text_before("ab", "ab"));
}

#[test]
fn error_messages_and_statuses() {
    let n = || "x".to_string();
    let cases = vec![
        (NosqlError::BucketNotFound(n()), "Bucket 'x' not found", 404),
        (NosqlError::BucketAlreadyExists(n()), "Bucket 'x' already exists", 409),
        (NosqlError::ScopeNotFound(n()), "Scope 'x' not found", 404),
        (NosqlError::ScopeAlreadyExists(n()), "Scope 'x' already exists", 409),
        (NosqlError::CollectionNotFound(n()), "Collection 'x' not found", 404),
        (NosqlError::CollectionAlreadyExists(n()), "Collection 'x' already exists", 409),
        (NosqlError::DocumentNotFound(n()), "Document 'x' not found", 404),
        (
            NosqlError::CasMismatch { expected: 1, actual: 2 },
            "CAS mismatch: expected 1, got 2",
            409,
        ),
        (NosqlError::DocumentExpired, "Document has expired", 404),
        (NosqlError::ReplicationNotFound(n()), "XDCR replication 'x' not found", 404),
        (NosqlError::ReplicationAlreadyExists(n()), "XDCR replication 'x' already exists", 409),
        (NosqlError::RemoteClusterNotFound(n()), "Remote cluster 'x' not found", 404),
        (NosqlError::RemoteClusterAlreadyExists(n()), "Remote cluster 'x' already exists", 409),
        (NosqlError::NodeNotFound(n()), "Node 'x' not found", 404),
        (NosqlError::NodeAlreadyExists(n()), "Node 'x' already exists", 409),
        (NosqlError::QueryError(n()), "Query error: x", 400),
        (NosqlError::PersistenceError(n()), "Persistence error: x", 500),
        (NosqlError::Internal(n()), "Internal error: x", 500),
        (NosqlError::InvalidRequest(n()), "Invalid request: x", 400),
        (NosqlError::XdcrConnectionError(n()), "XDCR connection error: x", 503),
        (NosqlError::VBucketNotFound(3), "VBucket 3 not found", 500),
        (NosqlError::DocumentLocked(n()), "Document 'x' is locked", 409),
        (NosqlError::SubdocPathNotFound(n()), "Sub-document path 'x' not found", 404),
        (NosqlError::SubdocPathMismatch(n()), "Sub-document path 'x' type mismatch", 400),
        (NosqlError::SubdocPathExists(n()), "Sub-document path 'x' already exists", 409),
        (
            NosqlError::MemoryQuotaExceeded(n(), 5, 4),
            "Memory quota exceeded for bucket 'x': using 5 MB of 4 MB",
            507,
        ),
    ];
    for (error, text, status) in cases {
        assert_eq!(error.to_text(), text);
        assert_eq!(error.status_code(), status);
    }
}

#[test]
fn settings_of_a_server_without_options() {
    let config: ServerConfig = CliArgs::default().into();
    assert_eq!(config.bind_address(), "0.0.0.0:8091");
    assert_eq!(config.num_vbuckets, 1024);
    assert_eq!(config.memcached_port, 11210);
    assert!(config.enable_persistence);
    assert!(!config.tls_enabled);
}
