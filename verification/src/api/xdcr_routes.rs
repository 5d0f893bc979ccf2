//! Requests about the replication to other clusters.

use crate::api::bucket_routes::{
    about, about_text, conflict_resolution_of, ok_answer, ok_json, read_conflict_resolution,
    ConflictResolutionType,
};
use crate::clock::{rfc3339, rfc3339_of};
use crate::error::{NosqlError, Result};
use crate::json::Json;
use crate::text::{copy_opt, opt_text};
use crate::unicode::{lowercase, lowercase_of};
use vstd::prelude::*;
use vstd::string::*;

verus! {

/// A request to make another cluster known.
#[derive(Debug)]
pub struct AddRemoteClusterRequest {
    pub name: String,
    pub hostname: String,
    pub port: u16,
    pub username: Option<String>,
    pub secure: bool,
}

/// A request to replicate a bucket to another cluster.
#[derive(Debug)]
pub struct CreateReplicationRequest {
    pub source_bucket: String,
    pub target_cluster: String,
    pub target_bucket: String,
    pub conflict_resolution: String,
    pub filter_expression: Option<String>,
    pub batch_size: usize,
    pub bidirectional: bool,
}

pub fn default_batch_size() -> (r: usize)
    ensures
        r == 500,
{
    500
}

/// How a bucket is replicated to another cluster. The time is in nanoseconds since the Unix epoch.
#[derive(Debug)]
pub struct ReplicationConfig {
    pub id: String,
    pub source_bucket: String,
    pub target_cluster: String,
    pub target_bucket: String,
    pub conflict_resolution: ConflictResolutionType,
    pub filter_expression: Option<String>,
    pub batch_size: usize,
    pub bidirectional: bool,
    pub created_at: i128,
}

/// The name of a replication: source bucket, cluster and target bucket.
pub open spec fn replication_id(req: CreateReplicationRequest) -> Seq<char> {
    req.source_bucket@ + "/"@ + req.target_cluster@ + "/"@ + req.target_bucket@
}

/// Reads a request to replicate a bucket.
pub fn create_replication(req: &CreateReplicationRequest, now: i128) -> (r: Result<ReplicationConfig>)
    ensures
        match (conflict_resolution_of(lowercase_of(req.conflict_resolution@)), r) {
            (Some(resolution), Ok(c)) => {
                &&& c.id@ == replication_id(*req)
                &&& c.source_bucket@ == req.source_bucket@
                &&& c.target_cluster@ == req.target_cluster@
                &&& c.target_bucket@ == req.target_bucket@
                &&& c.conflict_resolution == resolution
                &&& opt_text(c.filter_expression) == opt_text(req.filter_expression)
                &&& c.batch_size == req.batch_size
                &&& c.bidirectional == req.bidirectional
                &&& c.created_at == now
            },
            (None, Err(NosqlError::InvalidRequest(message))) => message@
                == "Invalid conflict resolution: "@ + req.conflict_resolution@,
            _ => false,
        },
{
    let word = lowercase(req.conflict_resolution.as_str());
    let conflict_resolution = match read_conflict_resolution(word.as_str()) {
        Some(c) => c,
        None => {
            let mut message = "Invalid conflict resolution: ".to_owned();
            message.append(req.conflict_resolution.as_str());
            return Err(NosqlError::InvalidRequest(message));
        },
    };
    let mut id = req.source_bucket.clone();
    id.append("/");
    id.append(req.target_cluster.as_str());
    id.append("/");
    id.append(req.target_bucket.as_str());
    Ok(
        ReplicationConfig {
            id,
            source_bucket: req.source_bucket.clone(),
            target_cluster: req.target_cluster.clone(),
            target_bucket: req.target_bucket.clone(),
            conflict_resolution,
            filter_expression: copy_opt(&req.filter_expression),
            batch_size: req.batch_size,
            bidirectional: req.bidirectional,
            created_at: now,
        },
    )
}

/// How a replication stands; the status is the name of its state.
#[derive(Debug)]
pub struct ReplicationState {
    pub config: ReplicationConfig,
    pub status: String,
    pub docs_replicated: u64,
    pub docs_failed: u64,
    pub total_conflicts: u64,
    pub last_replicated_at: Option<i128>,
    pub error_message: Option<String>,
}

/// What is said of a replication.
#[derive(Debug)]
pub struct ReplicationResponse {
    pub id: String,
    pub source_bucket: String,
    pub target_cluster: String,
    pub target_bucket: String,
    pub status: String,
    pub conflict_resolution: String,
    pub filter_expression: Option<String>,
    pub bidirectional: bool,
    pub docs_replicated: u64,
    pub docs_failed: u64,
    pub total_conflicts: u64,
    pub last_replicated_at: Option<String>,
    pub error_message: Option<String>,
    pub created_at: String,
}

/// What is said of a replication.
pub fn replication_to_response(state: &ReplicationState) -> (r: ReplicationResponse)
    ensures
        r.id@ == state.config.id@,
        r.source_bucket@ == state.config.source_bucket@,
        r.target_cluster@ == state.config.target_cluster@,
        r.target_bucket@ == state.config.target_bucket@,
        r.status@ == state.status@,
        r.conflict_resolution@ == state.config.conflict_resolution.name(),
        opt_text(r.filter_expression) == opt_text(state.config.filter_expression),
        r.bidirectional == state.config.bidirectional,
        r.docs_replicated == state.docs_replicated,
        r.docs_failed == state.docs_failed,
        r.total_conflicts == state.total_conflicts,
        opt_text(r.last_replicated_at) == match state.last_replicated_at {
            Some(t) => Some(rfc3339_of(t)),
            None => None,
        },
        opt_text(r.error_message) == opt_text(state.error_message),
        r.created_at@ == rfc3339_of(state.config.created_at),
{
    ReplicationResponse {
        id: state.config.id.clone(),
        source_bucket: state.config.source_bucket.clone(),
        target_cluster: state.config.target_cluster.clone(),
        target_bucket: state.config.target_bucket.clone(),
        status: state.status.clone(),
        conflict_resolution: state.config.conflict_resolution.to_text().to_owned(),
        filter_expression: copy_opt(&state.config.filter_expression),
        bidirectional: state.config.bidirectional,
        docs_replicated: state.docs_replicated,
        docs_failed: state.docs_failed,
        total_conflicts: state.total_conflicts,
        last_replicated_at: match state.last_replicated_at {
            Some(t) => Some(rfc3339(t)),
            None => None,
        },
        error_message: copy_opt(&state.error_message),
        created_at: rfc3339(state.config.created_at),
    }
}

/// The answer when something happened to a remote cluster: it was `added` or `removed`.
pub fn remote_cluster_answer(name: &str, what: &str) -> (r: Json)
    ensures
        r@ == ok_json(about("Remote cluster"@, name@, what@)),
{
    let message = about_text("Remote cluster", name, what);
    ok_answer(message.as_str())
}

/// The answer when something happened to a replication: it was `deleted`, `paused` or `resumed`.
pub fn replication_answer(id: &str, what: &str) -> (r: Json)
    ensures
        r@ == ok_json(about("Replication"@, id@, what@)),
{
    let message = about_text("Replication", id, what);
    ok_answer(message.as_str())
}

// ---- Laws ----

/// A replication is named after source bucket, cluster and target bucket, with slashes between them.
pub proof fn law_replications_are_named(req: CreateReplicationRequest)
    ensures
        replication_id(req) == req.source_bucket@ + ("/"@ + (req.target_cluster@ + ("/"@
            + req.target_bucket@))),
{
    assert(replication_id(req) =~= req.source_bucket@ + ("/"@ + (req.target_cluster@ + ("/"@
        + req.target_bucket@))));
}

} // verus!
