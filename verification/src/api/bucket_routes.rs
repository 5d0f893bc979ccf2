//! Requests about buckets, scopes and collections: how they are read, what they lead to on other
//! nodes, and how they are answered.

use crate::audit::logger::AuditEventType;
use crate::cluster::chronicle::ConfigChangeType;
use crate::cluster::manager::node_views;
use crate::cluster::node::{url_of, ClusterNode, NodeStatus, NodeView};
use crate::error::{NosqlError, Result};
use crate::json::{json_number, json_text, number, Json, JsonView};
use crate::text::{copy_texts, dec, same_text, texts};
use crate::unicode::{lowercase, lowercase_of};
use vstd::prelude::*;
use vstd::string::*;

verus! {

/// How a bucket keeps its documents.
#[derive(Clone, Copy, Debug, PartialEq, Eq, Structural)]
pub enum BucketType {
    Couchbase,
    Ephemeral,
    Memcached,
}

/// How two versions of a document are told apart.
#[derive(Clone, Copy, Debug, PartialEq, Eq, Structural)]
pub enum ConflictResolutionType {
    SequenceNumber,
    Timestamp,
}

impl BucketType {
    pub open spec fn name(self) -> Seq<char> {
        match self {
            BucketType::Couchbase => "Couchbase"@,
            BucketType::Ephemeral => "Ephemeral"@,
            BucketType::Memcached => "Memcached"@,
        }
    }

    pub fn to_text(self) -> (r: &'static str)
        ensures
            r@ == self.name(),
    {
        match self {
            BucketType::Couchbase => "Couchbase",
            BucketType::Ephemeral => "Ephemeral",
            BucketType::Memcached => "Memcached",
        }
    }
}

impl ConflictResolutionType {
    pub open spec fn name(self) -> Seq<char> {
        match self {
            ConflictResolutionType::SequenceNumber => "SequenceNumber"@,
            ConflictResolutionType::Timestamp => "Timestamp"@,
        }
    }

    pub fn to_text(self) -> (r: &'static str)
        ensures
            r@ == self.name(),
    {
        match self {
            ConflictResolutionType::SequenceNumber => "SequenceNumber",
            ConflictResolutionType::Timestamp => "Timestamp",
        }
    }
}

/// Which values are compressed.
#[derive(Debug, Clone, Copy, PartialEq, Eq, Structural)]
pub enum CompressionMode {
    /// Those that come compressed.
    Passive,
}

/// What leaves memory where it is short.
#[derive(Debug, Clone, Copy, PartialEq, Eq, Structural)]
pub enum EvictionPolicy {
    /// Values, but not keys.
    ValueOnly,
}

/// How a bucket is set up.
#[derive(Debug)]
pub struct BucketConfig {
    pub name: String,
    pub bucket_type: BucketType,
    pub ram_quota_mb: u64,
    pub num_replicas: u8,
    pub num_vbuckets: u16,
    pub flush_enabled: bool,
    pub conflict_resolution: ConflictResolutionType,
    pub max_ttl: Option<u64>,
    pub compression_mode: CompressionMode,
    pub eviction_policy: EvictionPolicy,
}

/// What a [`BucketConfig`] stands for.
#[verifier::ext_equal]
pub struct BucketConfigView {
    pub name: Seq<char>,
    pub bucket_type: BucketType,
    pub ram_quota_mb: u64,
    pub num_replicas: u8,
    pub num_vbuckets: u16,
    pub flush_enabled: bool,
    pub conflict_resolution: ConflictResolutionType,
    pub max_ttl: Option<u64>,
    pub compression_mode: CompressionMode,
    pub eviction_policy: EvictionPolicy,
}

impl View for BucketConfig {
    type V = BucketConfigView;

    open spec fn view(&self) -> BucketConfigView {
        BucketConfigView {
            name: self.name@,
            bucket_type: self.bucket_type,
            ram_quota_mb: self.ram_quota_mb,
            num_replicas: self.num_replicas,
            num_vbuckets: self.num_vbuckets,
            flush_enabled: self.flush_enabled,
            conflict_resolution: self.conflict_resolution,
            max_ttl: self.max_ttl,
            compression_mode: self.compression_mode,
            eviction_policy: self.eviction_policy,
        }
    }
}

/// A request to create a bucket.
#[derive(Debug)]
pub struct CreateBucketRequest {
    pub name: String,
    pub bucket_type: String,
    pub ram_quota_mb: u64,
    pub num_replicas: u8,
    pub flush_enabled: bool,
    pub conflict_resolution: String,
    pub max_ttl: Option<u64>,
}

pub fn default_bucket_type() -> (r: String)
    ensures
        r@ == "couchbase"@,
{
    "couchbase".to_owned()
}

pub fn default_ram_quota() -> (r: u64)
    ensures
        r == 256,
{
    256
}

pub fn default_replicas() -> (r: u8)
    ensures
        r == 1,
{
    1
}

pub fn default_conflict_resolution() -> (r: String)
    ensures
        r@ == "seqno"@,
{
    "seqno".to_owned()
}

/// A request to create a scope.
#[derive(Debug)]
pub struct CreateScopeRequest {
    pub name: String,
}

/// A request to create a collection.
#[derive(Debug)]
pub struct CreateCollectionRequest {
    pub name: String,
    pub max_ttl: Option<u64>,
}

/// A scope and its collections.
#[derive(Debug)]
pub struct ScopeResponse {
    pub name: String,
    pub collections: Vec<String>,
}

/// What a [`ScopeResponse`] stands for.
#[verifier::ext_equal]
pub struct ScopeView {
    pub name: Seq<char>,
    pub collections: Seq<Seq<char>>,
}

impl View for ScopeResponse {
    type V = ScopeView;

    open spec fn view(&self) -> ScopeView {
        ScopeView { name: self.name@, collections: texts(self.collections@) }
    }
}

impl ScopeResponse {
    /// A copy.
    pub fn copy(&self) -> (r: ScopeResponse)
        ensures
            r@ == self@,
    {
        ScopeResponse { name: self.name.clone(), collections: copy_texts(&self.collections) }
    }
}

/// What a list of scopes stands for.
pub open spec fn scope_views(v: Seq<ScopeResponse>) -> Seq<ScopeView> {
    Seq::new(v.len(), |i: int| v[i]@)
}

fn copy_scopes(v: &Vec<ScopeResponse>) -> (r: Vec<ScopeResponse>)
    ensures
        scope_views(r@) == scope_views(v@),
{
    let mut out: Vec<ScopeResponse> = Vec::new();
    let mut k: usize = 0;
    while k < v.len()
        invariant
            k <= v@.len(),
            out@.len() == k,
            forall|i: int| 0 <= i < k ==> (#[trigger] out@[i])@ == v@[i]@,
        decreases v@.len() - k,
    {
        out.push(v[k].copy());
        k = k + 1;
    }
    assert(scope_views(out@) =~= scope_views(v@));
    out
}

/// What is said of a bucket.
#[derive(Debug)]
pub struct BucketResponse {
    pub name: String,
    pub bucket_type: String,
    pub ram_quota_mb: u64,
    pub num_replicas: u8,
    pub num_vbuckets: u16,
    pub flush_enabled: bool,
    pub conflict_resolution: String,
    pub max_ttl: Option<u64>,
    pub document_count: usize,
    pub size_bytes: usize,
    pub scopes: Vec<ScopeResponse>,
}

/// What is said of a bucket.
pub fn bucket_response(
    config: &BucketConfig,
    document_count: usize,
    size_bytes: usize,
    scopes: &Vec<ScopeResponse>,
) -> (r: BucketResponse)
    ensures
        r.name@ == config@.name,
        r.bucket_type@ == config@.bucket_type.name(),
        r.ram_quota_mb == config@.ram_quota_mb,
        r.num_replicas == config@.num_replicas,
        r.num_vbuckets == config@.num_vbuckets,
        r.flush_enabled == config@.flush_enabled,
        r.conflict_resolution@ == config@.conflict_resolution.name(),
        r.max_ttl == config@.max_ttl,
        r.document_count == document_count,
        r.size_bytes == size_bytes,
        scope_views(r.scopes@) == scope_views(scopes@),
{
    BucketResponse {
        name: config.name.clone(),
        bucket_type: config.bucket_type.to_text().to_owned(),
        ram_quota_mb: config.ram_quota_mb,
        num_replicas: config.num_replicas,
        num_vbuckets: config.num_vbuckets,
        flush_enabled: config.flush_enabled,
        conflict_resolution: config.conflict_resolution.to_text().to_owned(),
        max_ttl: config.max_ttl,
        document_count,
        size_bytes,
        scopes: copy_scopes(scopes),
    }
}

/// The kind of bucket that a word names, in lower case.
pub open spec fn bucket_type_of(word: Seq<char>) -> Option<BucketType> {
    if word == "couchbase"@ {
        Some(BucketType::Couchbase)
    } else if word == "ephemeral"@ {
        Some(BucketType::Ephemeral)
    } else if word == "memcached"@ {
        Some(BucketType::Memcached)
    } else {
        None
    }
}

/// The conflict resolution that a word names, in lower case.
pub open spec fn conflict_resolution_of(word: Seq<char>) -> Option<ConflictResolutionType> {
    if word == "seqno"@ || word == "sequence"@ || word == "sequencenumber"@ {
        Some(ConflictResolutionType::SequenceNumber)
    } else if word == "timestamp"@ || word == "lww"@ {
        Some(ConflictResolutionType::Timestamp)
    } else {
        None
    }
}

fn read_bucket_type(word: &str) -> (r: Option<BucketType>)
    ensures
        r == bucket_type_of(word@),
{
    if same_text(word, "couchbase") {
        Some(BucketType::Couchbase)
    } else if same_text(word, "ephemeral") {
        Some(BucketType::Ephemeral)
    } else if same_text(word, "memcached") {
        Some(BucketType::Memcached)
    } else {
        None
    }
}

pub(crate) fn read_conflict_resolution(word: &str) -> (r: Option<ConflictResolutionType>)
    ensures
        r == conflict_resolution_of(word@),
{
    if same_text(word, "seqno") || same_text(word, "sequence") || same_text(word, "sequencenumber") {
        Some(ConflictResolutionType::SequenceNumber)
    } else if same_text(word, "timestamp") || same_text(word, "lww") {
        Some(ConflictResolutionType::Timestamp)
    } else {
        None
    }
}

/// The bucket that a request asks for, if its words are known.
pub open spec fn requested_bucket(req: CreateBucketRequest, num_vbuckets: u16) -> std::result::Result<
    BucketConfigView,
    Seq<char>,
> {
    match bucket_type_of(lowercase_of(req.bucket_type@)) {
        None => Err("Invalid bucket type: "@ + req.bucket_type@),
        Some(bucket_type) => match conflict_resolution_of(lowercase_of(req.conflict_resolution@)) {
            None => Err("Invalid conflict resolution: "@ + req.conflict_resolution@),
            Some(conflict_resolution) => Ok(
                BucketConfigView {
                    name: req.name@,
                    bucket_type,
                    ram_quota_mb: req.ram_quota_mb,
                    num_replicas: req.num_replicas,
                    num_vbuckets,
                    flush_enabled: req.flush_enabled,
                    conflict_resolution,
                    max_ttl: req.max_ttl,
                    compression_mode: CompressionMode::Passive,
                    eviction_policy: EvictionPolicy::ValueOnly,
                },
            ),
        },
    }
}

/// Reads a request to create a bucket.
pub fn create_bucket(req: &CreateBucketRequest, num_vbuckets: u16) -> (r: Result<BucketConfig>)
    ensures
        match r {
            Ok(config) => requested_bucket(*req, num_vbuckets) == Ok::<BucketConfigView, Seq<char>>(
                config@,
            ),
            Err(NosqlError::InvalidRequest(message)) => requested_bucket(*req, num_vbuckets) == Err::<
                BucketConfigView,
                Seq<char>,
            >(message@),
            Err(_) => false,
        },
{
    let word = lowercase(req.bucket_type.as_str());
    let bucket_type = match read_bucket_type(word.as_str()) {
        Some(t) => t,
        None => {
            let mut out = "Invalid bucket type: ".to_owned();
            out.append(req.bucket_type.as_str());
            return Err(NosqlError::InvalidRequest(out));
        },
    };
    let word = lowercase(req.conflict_resolution.as_str());
    let conflict_resolution = match read_conflict_resolution(word.as_str()) {
        Some(t) => t,
        None => {
            let mut out = "Invalid conflict resolution: ".to_owned();
            out.append(req.conflict_resolution.as_str());
            return Err(NosqlError::InvalidRequest(out));
        },
    };
    Ok(
        BucketConfig {
            name: req.name.clone(),
            bucket_type,
            ram_quota_mb: req.ram_quota_mb,
            num_replicas: req.num_replicas,
            num_vbuckets,
            flush_enabled: req.flush_enabled,
            conflict_resolution,
            max_ttl: req.max_ttl,
            compression_mode: CompressionMode::Passive,
            eviction_policy: EvictionPolicy::ValueOnly,
        },
    )
}

/// A node to which a change is passed on.
#[derive(Debug)]
pub struct ReplicationTarget {
    pub node: String,
    pub url: String,
}

/// What a [`ReplicationTarget`] stands for.
#[verifier::ext_equal]
pub struct TargetView {
    pub node: Seq<char>,
    pub url: Seq<char>,
}

impl View for ReplicationTarget {
    type V = TargetView;

    open spec fn view(&self) -> TargetView {
        TargetView { node: self.node@, url: self.url@ }
    }
}

/// What a list of targets stands for.
pub open spec fn target_views(v: Seq<ReplicationTarget>) -> Seq<TargetView> {
    Seq::new(v.len(), |i: int| v[i]@)
}

/// Whether changes are passed on to a node: to others that are healthy or warming up.
pub open spec fn takes_changes(node: NodeView, own: Seq<char>) -> bool {
    node.name != own && (node.status == NodeStatus::Healthy || node.status == NodeStatus::Warmup)
}

/// The nodes among the first `k` to which a change is passed on.
pub open spec fn targets_among(nodes: Seq<NodeView>, own: Seq<char>, path: Seq<char>, k: int) -> Seq<
    TargetView,
>
    decreases k,
{
    if k <= 0 {
        Seq::empty()
    } else if takes_changes(nodes[k - 1], own) {
        targets_among(nodes, own, path, k - 1).push(
            TargetView {
                node: nodes[k - 1].name,
                url: url_of(nodes[k - 1].hostname, nodes[k - 1].port) + path,
            },
        )
    } else {
        targets_among(nodes, own, path, k - 1)
    }
}

/// The nodes to which a change is passed on, with the address of the request.
pub fn replicate_to_cluster(nodes: &Vec<ClusterNode>, own: &str, path: &str) -> (r: Vec<
    ReplicationTarget,
>)
    ensures
        target_views(r@) == targets_among(node_views(nodes@), own@, path@, nodes@.len() as int),
{
    let ghost views = node_views(nodes@);
    let mut out: Vec<ReplicationTarget> = Vec::new();
    let mut k: usize = 0;
    assert(target_views(out@) =~= targets_among(views, own@, path@, 0));
    while k < nodes.len()
        invariant
            k <= nodes@.len(),
            views == node_views(nodes@),
            target_views(out@) == targets_among(views, own@, path@, k as int),
        decreases nodes@.len() - k,
    {
        let ghost prior = out@;
        let node = &nodes[k];
        assert(views[k as int] == node@);
        if !same_text(node.name.as_str(), own) && (node.status == NodeStatus::Healthy || node.status
            == NodeStatus::Warmup) {
            let mut url = node.base_url();
            url.append(path);
            let target = ReplicationTarget { node: node.name.clone(), url };
            out.push(target);
            assert(target_views(out@) =~= target_views(prior).push(target@));
        }
        k = k + 1;
    }
    out
}

/// What a change leads to once it has been made: an entry in the audit log, a proposal to the
/// cluster, a request to the other nodes unless it came from one of them, and an answer.
pub struct Announcement {
    pub audit: Option<(AuditEventType, String)>,
    pub proposal: Option<(ConfigChangeType, Json)>,
    pub request: Option<PassedOn>,
    /// There is none for a new bucket, of which the answer says what is said of any bucket.
    pub answer: Option<Json>,
}

/// A request to the other nodes.
pub struct PassedOn {
    /// Whether something is deleted; otherwise it is created or changed.
    pub delete: bool,
    pub path: String,
    pub body: Option<Json>,
}

/// What an [`Announcement`] stands for.
#[verifier::ext_equal]
pub struct AnnouncementView {
    pub audit: Option<(AuditEventType, Seq<char>)>,
    pub proposal: Option<(ConfigChangeType, JsonView)>,
    pub request: Option<PassedOnView>,
    pub answer: Option<JsonView>,
}

/// What a [`PassedOn`] stands for.
#[verifier::ext_equal]
pub struct PassedOnView {
    pub delete: bool,
    pub path: Seq<char>,
    pub body: Option<JsonView>,
}

/// What a value stands for, if there is one.
pub open spec fn opt_json(j: Option<Json>) -> Option<JsonView> {
    match j {
        Some(x) => Some(x@),
        None => None,
    }
}

impl View for PassedOn {
    type V = PassedOnView;

    open spec fn view(&self) -> PassedOnView {
        PassedOnView { delete: self.delete, path: self.path@, body: opt_json(self.body) }
    }
}

impl View for Announcement {
    type V = AnnouncementView;

    open spec fn view(&self) -> AnnouncementView {
        AnnouncementView {
            audit: match self.audit {
                Some((kind, text)) => Some((kind, text@)),
                None => None,
            },
            proposal: match self.proposal {
                Some((kind, payload)) => Some((kind, payload@)),
                None => None,
            },
            request: match self.request {
                Some(p) => Some(p@),
                None => None,
            },
            answer: opt_json(self.answer),
        }
    }
}

/// The answer that all went well.
pub open spec fn ok_json(message: Seq<char>) -> JsonView {
    JsonView::object().with("status"@, JsonView::Text("ok"@)).with(
        "message"@,
        JsonView::Text(message),
    )
}

/// The answer that all went well.
pub fn ok_answer(message: &str) -> (r: Json)
    ensures
        r@ == ok_json(message@),
{
    Json::object().with("status", json_text("ok")).with("message", json_text(message))
}

/// A sentence about a named thing.
pub open spec fn about(what: Seq<char>, name: Seq<char>, rest: Seq<char>) -> Seq<char> {
    what + " '"@ + name + "' "@ + rest
}

pub(crate) fn about_text(what: &str, name: &str, rest: &str) -> (r: String)
    ensures
        r@ == about(what@, name@, rest@),
{
    let mut out = what.to_owned();
    out.append(" '");
    out.append(name);
    out.append("' ");
    out.append(rest);
    out
}

/// A number, or null where there is none.
pub open spec fn number_or_null(n: Option<u64>) -> JsonView {
    match n {
        Some(x) => number(x as nat),
        None => JsonView::Null,
    }
}

/// A number, or null where there is none.
pub(crate) fn json_opt_number(n: Option<u64>) -> (r: Json)
    ensures
        r@ == number_or_null(n),
{
    match n {
        Some(x) => json_number(x),
        None => Json::Null,
    }
}

/// The path of the buckets, of one bucket, or of something below it.
pub open spec fn bucket_route(bucket: Seq<char>, rest: Seq<char>) -> Seq<char> {
    "/api/v1/buckets/"@ + bucket + rest
}

pub(crate) fn bucket_route_text(bucket: &str, rest: &str) -> (r: String)
    ensures
        r@ == bucket_route(bucket@, rest@),
{
    let mut out = "/api/v1/buckets/".to_owned();
    out.append(bucket);
    out.append(rest);
    out
}

/// The path of the collections of a scope.
pub open spec fn collections_route(bucket: Seq<char>, scope: Seq<char>) -> Seq<char> {
    bucket_route(bucket, "/scopes/"@) + scope + "/collections"@
}

pub(crate) fn collections_route_text(bucket: &str, scope: &str) -> (r: String)
    ensures
        r@ == collections_route(bucket@, scope@),
{
    let mut out = bucket_route_text(bucket, "/scopes/");
    out.append(scope);
    out.append("/collections");
    out
}

/// A request to the other nodes, unless the change came from one of them.
pub open spec fn passed_on(
    internal: bool,
    delete: bool,
    path: Seq<char>,
    body: Option<JsonView>,
) -> Option<PassedOnView> {
    if internal {
        None
    } else {
        Some(PassedOnView { delete, path, body })
    }
}

fn pass_on(internal: bool, delete: bool, path: String, body: Option<Json>) -> (r: Option<PassedOn>)
    ensures
        match r {
            Some(p) => passed_on(internal, delete, path@, opt_json(body)) == Some(p@),
            None => passed_on(internal, delete, path@, opt_json(body)) is None,
        },
{
    if internal {
        None
    } else {
        Some(PassedOn { delete, path, body })
    }
}

/// What is proposed to the cluster about a new bucket.
pub open spec fn bucket_payload(req: CreateBucketRequest) -> JsonView {
    JsonView::object()
        .with("name"@, JsonView::Text(req.name@))
        .with("bucket_type"@, JsonView::Text(req.bucket_type@))
        .with("ram_quota_mb"@, number(req.ram_quota_mb as nat))
        .with("num_replicas"@, number(req.num_replicas as nat))
}

/// The request for a new bucket, as it is passed on.
pub open spec fn bucket_body(req: CreateBucketRequest) -> JsonView {
    bucket_payload(req)
        .with("flush_enabled"@, JsonView::Bool(req.flush_enabled))
        .with("conflict_resolution"@, JsonView::Text(req.conflict_resolution@))
        .with("max_ttl"@, number_or_null(req.max_ttl))
}

fn make_bucket_payload(req: &CreateBucketRequest) -> (r: Json)
    ensures
        r@ == bucket_payload(*req),
{
    Json::object()
        .with("name", json_text(req.name.as_str()))
        .with("bucket_type", json_text(req.bucket_type.as_str()))
        .with("ram_quota_mb", json_number(req.ram_quota_mb))
        .with("num_replicas", json_number(req.num_replicas as u64))
}

/// What a new bucket leads to.
pub fn bucket_created(req: &CreateBucketRequest, internal: bool) -> (r: Announcement)
    ensures
        r@ == (AnnouncementView {
            audit: Some((AuditEventType::BucketCreated, about("Bucket"@, req.name@, "created"@))),
            proposal: Some((ConfigChangeType::BucketCreate, bucket_payload(*req))),
            request: passed_on(internal, false, "/api/v1/buckets"@, Some(bucket_body(*req))),
            answer: None,
        }),
{
    let body = make_bucket_payload(req)
        .with("flush_enabled", Json::Bool(req.flush_enabled))
        .with("conflict_resolution", json_text(req.conflict_resolution.as_str()))
        .with("max_ttl", json_opt_number(req.max_ttl));
    Announcement {
        audit: Some(
            (AuditEventType::BucketCreated, about_text("Bucket", req.name.as_str(), "created")),
        ),
        proposal: Some((ConfigChangeType::BucketCreate, make_bucket_payload(req))),
        request: pass_on(internal, false, "/api/v1/buckets".to_owned(), Some(body)),
        answer: None,
    }
}

/// An object that names a bucket.
pub open spec fn named_json(name: Seq<char>) -> JsonView {
    JsonView::object().with("name"@, JsonView::Text(name))
}

pub(crate) fn named(name: &str) -> (r: Json)
    ensures
        r@ == named_json(name@),
{
    Json::object().with("name", json_text(name))
}

/// What the deletion of a bucket leads to.
pub fn bucket_deleted(name: &str, internal: bool) -> (r: Announcement)
    ensures
        r@ == (AnnouncementView {
            audit: Some((AuditEventType::BucketDeleted, about("Bucket"@, name@, "deleted"@))),
            proposal: Some((ConfigChangeType::BucketDelete, named_json(name@))),
            request: passed_on(internal, true, bucket_route(name@, ""@), None),
            answer: Some(ok_json(about("Bucket"@, name@, "deleted"@))),
        }),
{
    let message = about_text("Bucket", name, "deleted");
    let answer = ok_answer(message.as_str());
    Announcement {
        audit: Some((AuditEventType::BucketDeleted, message)),
        proposal: Some((ConfigChangeType::BucketDelete, named(name))),
        request: pass_on(internal, true, bucket_route_text(name, ""), None),
        answer: Some(answer),
    }
}

/// What the flush of a bucket leads to.
pub fn bucket_flushed(name: &str, internal: bool) -> (r: Announcement)
    ensures
        r@ == (AnnouncementView {
            audit: Some((AuditEventType::BucketFlushed, about("Bucket"@, name@, "flushed"@))),
            proposal: None,
            request: passed_on(internal, false, bucket_route(name@, "/flush"@), None),
            answer: Some(ok_json(about("Bucket"@, name@, "flushed"@))),
        }),
{
    let message = about_text("Bucket", name, "flushed");
    let answer = ok_answer(message.as_str());
    Announcement {
        audit: Some((AuditEventType::BucketFlushed, message)),
        proposal: None,
        request: pass_on(internal, false, bucket_route_text(name, "/flush"), None),
        answer: Some(answer),
    }
}

/// What is proposed to the cluster about a scope.
pub open spec fn scope_payload(bucket: Seq<char>, scope: Seq<char>) -> JsonView {
    JsonView::object().with("bucket"@, JsonView::Text(bucket)).with("scope"@, JsonView::Text(scope))
}

fn make_scope_payload(bucket: &str, scope: &str) -> (r: Json)
    ensures
        r@ == scope_payload(bucket@, scope@),
{
    Json::object().with("bucket", json_text(bucket)).with("scope", json_text(scope))
}

/// What a new scope leads to.
pub fn scope_created(bucket: &str, scope: &str, internal: bool) -> (r: Announcement)
    ensures
        r@ == (AnnouncementView {
            audit: None,
            proposal: Some((ConfigChangeType::ScopeCreate, scope_payload(bucket@, scope@))),
            request: passed_on(
                internal,
                false,
                bucket_route(bucket@, "/scopes"@),
                Some(named_json(scope@)),
            ),
            answer: Some(ok_json(about("Scope"@, scope@, "created"@))),
        }),
{
    let message = about_text("Scope", scope, "created");
    Announcement {
        audit: None,
        proposal: Some((ConfigChangeType::ScopeCreate, make_scope_payload(bucket, scope))),
        request: pass_on(
            internal,
            false,
            bucket_route_text(bucket, "/scopes"),
            Some(named(scope)),
        ),
        answer: Some(ok_answer(message.as_str())),
    }
}

/// What the deletion of a scope leads to.
pub fn scope_deleted(bucket: &str, scope: &str, internal: bool) -> (r: Announcement)
    ensures
        r@ == (AnnouncementView {
            audit: None,
            proposal: Some((ConfigChangeType::ScopeDelete, scope_payload(bucket@, scope@))),
            request: passed_on(internal, true, bucket_route(bucket@, "/scopes/"@) + scope@, None),
            answer: Some(ok_json(about("Scope"@, scope@, "deleted"@))),
        }),
{
    let message = about_text("Scope", scope, "deleted");
    let mut path = bucket_route_text(bucket, "/scopes/");
    path.append(scope);
    Announcement {
        audit: None,
        proposal: Some((ConfigChangeType::ScopeDelete, make_scope_payload(bucket, scope))),
        request: pass_on(internal, true, path, None),
        answer: Some(ok_answer(message.as_str())),
    }
}

/// What a new collection leads to.
pub fn collection_created(
    bucket: &str,
    scope: &str,
    req: &CreateCollectionRequest,
    internal: bool,
) -> (r: Announcement)
    ensures
        r@ == (AnnouncementView {
            audit: None,
            proposal: Some(
                (
                    ConfigChangeType::CollectionCreate,
                    scope_payload(bucket@, scope@).with("collection"@, JsonView::Text(req.name@)),
                ),
            ),
            request: passed_on(
                internal,
                false,
                collections_route(bucket@, scope@),
                Some(named_json(req.name@).with("max_ttl"@, number_or_null(req.max_ttl))),
            ),
            answer: Some(
                ok_json(about("Collection"@, req.name@, "created in scope '"@) + scope@ + "'"@),
            ),
        }),
{
    let name = req.name.as_str();
    let mut message = about_text("Collection", name, "created in scope '");
    message.append(scope);
    message.append("'");
    let payload = make_scope_payload(bucket, scope).with("collection", json_text(name));
    let body = named(name).with("max_ttl", json_opt_number(req.max_ttl));
    Announcement {
        audit: None,
        proposal: Some((ConfigChangeType::CollectionCreate, payload)),
        request: pass_on(internal, false, collections_route_text(bucket, scope), Some(body)),
        answer: Some(ok_answer(message.as_str())),
    }
}

/// What the deletion of a collection leads to.
pub fn collection_deleted(bucket: &str, scope: &str, collection: &str, internal: bool) -> (r:
    Announcement)
    ensures
        r@ == (AnnouncementView {
            audit: None,
            proposal: Some(
                (
                    ConfigChangeType::CollectionDelete,
                    scope_payload(bucket@, scope@).with("collection"@, JsonView::Text(collection@)),
                ),
            ),
            request: passed_on(
                internal,
                true,
                collections_route(bucket@, scope@) + "/"@ + collection@,
                None,
            ),
            answer: Some(ok_json(about("Collection"@, collection@, "deleted"@))),
        }),
{
    let message = about_text("Collection", collection, "deleted");
    let mut path = collections_route_text(bucket, scope);
    path.append("/");
    path.append(collection);
    let payload = make_scope_payload(bucket, scope).with("collection", json_text(collection));
    Announcement {
        audit: None,
        proposal: Some((ConfigChangeType::CollectionDelete, payload)),
        request: pass_on(internal, true, path, None),
        answer: Some(ok_answer(message.as_str())),
    }
}

/// Changes are passed on to other nodes only, so that no node passes a change on to itself.
pub proof fn law_no_node_passes_on_to_itself(
    nodes: Seq<NodeView>,
    own: Seq<char>,
    path: Seq<char>,
    k: int,
)
    requires
        k <= nodes.len(),
    ensures
        forall|i: int|
            0 <= i < targets_among(nodes, own, path, k).len() ==> (#[trigger] targets_among(
                nodes,
                own,
                path,
                k,
            )[i]).node != own,
    decreases k,
{
    if k > 0 {
        law_no_node_passes_on_to_itself(nodes, own, path, k - 1);
        let rest = targets_among(nodes, own, path, k - 1);
        let list = targets_among(nodes, own, path, k);
        assert forall|i: int| 0 <= i < list.len() implies (#[trigger] list[i]).node != own by {
            if i < rest.len() {
                assert(list[i] == rest[i]);
            }
        }
    }
}

// ---- Laws ----

/// The words for the kinds of buckets and of conflict resolution, in lower case.
pub proof fn law_words_name_their_kind(word: Seq<char>)
    ensures
        bucket_type_of(word) == Some(BucketType::Couchbase) <==> word == "couchbase"@,
        bucket_type_of(word) == Some(BucketType::Ephemeral) <==> word == "ephemeral"@,
        bucket_type_of(word) == Some(BucketType::Memcached) <==> word == "memcached"@,
        bucket_type_of(word) is None <==> word != "couchbase"@ && word != "ephemeral"@ && word
            != "memcached"@,
        conflict_resolution_of(word) == Some(ConflictResolutionType::SequenceNumber) <==> word
            == "seqno"@ || word == "sequence"@ || word == "sequencenumber"@,
        conflict_resolution_of(word) == Some(ConflictResolutionType::Timestamp) <==> word
            == "timestamp"@ || word == "lww"@,
{
    reveal_strlit("couchbase");
    reveal_strlit("ephemeral");
    reveal_strlit("memcached");
    reveal_strlit("seqno");
    reveal_strlit("sequence");
    reveal_strlit("sequencenumber");
    reveal_strlit("timestamp");
    reveal_strlit("lww");
    assert("couchbase"@[0] == 'c' && "ephemeral"@[0] == 'e' && "memcached"@[0] == 'm');
    assert("seqno"@[0] == 's' && "sequence"@[0] == 's' && "sequencenumber"@[0] == 's'
        && "timestamp"@[0] == 't' && "lww"@[0] == 'l');
}

/// A bucket is made as the request says; a word that names no kind is refused, that for the kind of
/// bucket first.
pub proof fn law_new_buckets_are_as_asked(req: CreateBucketRequest, num_vbuckets: u16)
    ensures
        ({
            let kind = bucket_type_of(lowercase_of(req.bucket_type@));
            let resolution = conflict_resolution_of(lowercase_of(req.conflict_resolution@));
            let made = requested_bucket(req, num_vbuckets);
            &&& made is Ok <==> kind is Some && resolution is Some
            &&& kind is None ==> made == Err::<BucketConfigView, Seq<char>>(
                "Invalid bucket type: "@ + req.bucket_type@,
            )
            &&& kind is Some && resolution is None ==> made == Err::<BucketConfigView, Seq<char>>(
                "Invalid conflict resolution: "@ + req.conflict_resolution@,
            )
            &&& made is Ok ==> {
                let bucket = made->Ok_0;
                &&& bucket.name == req.name@
                &&& Some(bucket.bucket_type) == kind
                &&& Some(bucket.conflict_resolution) == resolution
                &&& bucket.ram_quota_mb == req.ram_quota_mb
                &&& bucket.num_replicas == req.num_replicas
                &&& bucket.num_vbuckets == num_vbuckets
                &&& bucket.flush_enabled == req.flush_enabled
                &&& bucket.max_ttl == req.max_ttl
                &&& bucket.compression_mode == CompressionMode::Passive
                &&& bucket.eviction_policy == EvictionPolicy::ValueOnly
            }
        }),
{
}

/// A change is passed on to every other node that is healthy or warms up, in their order, at its own
/// address.
pub proof fn law_changes_reach_the_living(
    nodes: Seq<NodeView>,
    own: Seq<char>,
    path: Seq<char>,
    i: int,
)
    ensures
        ({
            let living = nodes.filter(
                |n: NodeView|
                    n.name != own && (n.status == NodeStatus::Healthy || n.status
                        == NodeStatus::Warmup),
            );
            let targets = targets_among(nodes, own, path, nodes.len() as int);
            &&& targets.len() == living.len()
            &&& 0 <= i < living.len() ==> targets[i].node == living[i].name && targets[i].url
                == "http://"@ + living[i].hostname + ":"@ + dec(living[i].port as nat) + path
        }),
{
    assert(nodes.take(nodes.len() as int) =~= nodes);
    lemma_targets(nodes, own, path, nodes.len() as int, i);
}

proof fn lemma_targets(nodes: Seq<NodeView>, own: Seq<char>, path: Seq<char>, k: int, i: int)
    requires
        0 <= k <= nodes.len(),
    ensures
        ({
            let living = nodes.take(k).filter(
                |n: NodeView|
                    n.name != own && (n.status == NodeStatus::Healthy || n.status
                        == NodeStatus::Warmup),
            );
            let targets = targets_among(nodes, own, path, k);
            &&& targets.len() == living.len()
            &&& 0 <= i < living.len() ==> targets[i].node == living[i].name && targets[i].url
                == "http://"@ + living[i].hostname + ":"@ + dec(living[i].port as nat) + path
        }),
    decreases k,
{
    reveal(Seq::filter);
    let s = nodes.take(k);
    if k > 0 {
        lemma_targets(nodes, own, path, k - 1, i);
        assert(s.drop_last() =~= nodes.take(k - 1));
    }
}

/// A change that came from another node is not passed on; others are, as they are.
pub proof fn law_changes_are_passed_on_once(delete: bool, path: Seq<char>, body: Option<JsonView>)
    ensures
        passed_on(true, delete, path, body) is None,
        passed_on(false, delete, path, body) == Some(PassedOnView { delete, path, body }),
{
}

/// The paths of what belongs to a bucket lead over its name.
pub proof fn law_paths_lead_over_the_bucket(bucket: Seq<char>, rest: Seq<char>, scope: Seq<char>)
    ensures
        bucket_route(bucket, rest) == "/api/v1/buckets/"@ + (bucket + rest),
        collections_route(bucket, scope) == "/api/v1/buckets/"@ + (bucket + ("/scopes/"@ + (scope
            + "/collections"@))),
{
    assert(bucket_route(bucket, rest) =~= "/api/v1/buckets/"@ + (bucket + rest));
    assert(collections_route(bucket, scope) =~= "/api/v1/buckets/"@ + (bucket + ("/scopes/"@ + (scope
        + "/collections"@))));
}

/// What is told about buckets, scopes and results: each value under its own name.
pub proof fn law_values_stand_under_their_names(
    req: CreateBucketRequest,
    bucket: Seq<char>,
    scope: Seq<char>,
    message: Seq<char>,
)
    ensures
        bucket_payload(req) is Object && bucket_payload(req)->Object_0 =~= seq![
            ("name"@, JsonView::Text(req.name@)),
            ("bucket_type"@, JsonView::Text(req.bucket_type@)),
            ("ram_quota_mb"@, JsonView::Number(dec(req.ram_quota_mb as nat))),
            ("num_replicas"@, JsonView::Number(dec(req.num_replicas as nat))),
        ],
        bucket_body(req) is Object,
        bucket_body(req)->Object_0.take(4) == bucket_payload(req)->Object_0,
        bucket_body(req)->Object_0.skip(4) == seq![
            ("flush_enabled"@, JsonView::Bool(req.flush_enabled)),
            ("conflict_resolution"@, JsonView::Text(req.conflict_resolution@)),
            (
                "max_ttl"@,
                match req.max_ttl {
                    Some(n) => JsonView::Number(dec(n as nat)),
                    None => JsonView::Null,
                },
            ),
        ],
        named_json(bucket) is Object && named_json(bucket)->Object_0 =~= seq![("name"@, JsonView::Text(bucket))],
        scope_payload(bucket, scope) is Object && scope_payload(bucket, scope)->Object_0 =~= seq![("bucket"@, JsonView::Text(bucket)), ("scope"@, JsonView::Text(scope))],
        ok_json(message) is Object && ok_json(message)->Object_0 =~= seq![("status"@, JsonView::Text("ok"@)), ("message"@, JsonView::Text(message))],
{
    assert(bucket_body(req)->Object_0.take(4) =~= bucket_payload(req)->Object_0);
    assert(bucket_body(req)->Object_0.skip(4) =~= seq![
        ("flush_enabled"@, JsonView::Bool(req.flush_enabled)),
        ("conflict_resolution"@, JsonView::Text(req.conflict_resolution@)),
        ("max_ttl"@, number_or_null(req.max_ttl)),
    ]);
}

/// A sentence about a thing has its name in quotes.
pub proof fn law_sentences_quote_the_name(what: Seq<char>, name: Seq<char>, rest: Seq<char>)
    ensures
        about(what, name, rest) == what + (" '"@ + (name + ("' "@ + rest))),
{
    assert(about(what, name, rest) =~= what + (" '"@ + (name + ("' "@ + rest))));
}

} // verus!
