//! Requests about documents: where they are served, how they are forwarded and answered.

use crate::auth::middleware::{permission_words, require_permission, AuthUser};
use crate::auth::rbac::{grants, may, Permission, PermissionView, RbacManager};
use crate::clock::{remaining_seconds, rfc3339, rfc3339_of, seconds_left};
use crate::cluster::durability::{
    law_pending_means_a_token, persists_active, registered, settled, token_place, DurabilityLevel,
    DurabilityManager, DurabilityRequirement, DurabilityToken, TokenView,
};
use crate::cluster::manager::{lemma_has_node, node_names, ClusterManager, ClusterView};
use crate::cluster::node::url_of;
use crate::cluster::partition::PartitionMap;
use crate::dcp::stream::{mutation_event, removal_event, DcpEngine, DcpEvent, DcpEventType};
use crate::document::Document;
use crate::error::{NosqlError, Result};
use crate::fts::engine::{
    after_delete, after_upsert, follows_bucket, recounted, FtsEngine, FtsIndexView,
};
use crate::fts::inverted::document_fits;
use crate::json::{json_number, json_text, number, Json, JsonView};
use crate::text::{copy_texts, dec, opt_text, push_dec, texts};
use vstd::prelude::*;
use vstd::string::*;

verus! {

/// A request to write a document; the value is a JSON text.
#[derive(Debug)]
pub struct UpsertDocumentRequest {
    pub value: String,
    pub expiry: Option<u64>,
    pub flags: Option<u32>,
    pub cas: Option<u64>,
    pub durability_level: Option<DurabilityLevel>,
    pub durability_timeout_ms: Option<u64>,
}

/// A request to give a document another expiry.
#[derive(Debug)]
pub struct TouchDocumentRequest {
    pub expiry: u64,
}

/// What a request to delete may say.
#[derive(Debug)]
pub struct DocQueryParams {
    pub cas: Option<u64>,
}

/// What a request for a list may say.
#[derive(Debug)]
pub struct ListDocsParams {
    pub limit: Option<usize>,
    pub offset: Option<usize>,
    pub prefix: Option<String>,
}

/// A request to write an extended attribute; the value is a JSON text.
#[derive(Debug)]
pub struct XattrUpsertRequest {
    pub value: String,
    pub cas: Option<u64>,
}

/// A document as it is handed out.
#[derive(Debug)]
pub struct DocumentResponse {
    pub key: String,
    pub value: String,
    pub cas: u64,
    pub rev_id: u64,
    pub seq_no: u64,
    pub expiry: Option<String>,
    pub flags: u32,
    pub vbucket_id: u16,
    pub created_at: String,
    pub updated_at: String,
    pub served_by: String,
}

/// A time in the notation of RFC 3339, if there is one.
pub open spec fn opt_time(t: Option<i128>) -> Option<Seq<char>> {
    match t {
        Some(t) => Some(rfc3339_of(t)),
        None => None,
    }
}

fn opt_time_text(t: Option<i128>) -> (r: Option<String>)
    ensures
        opt_text(r) == opt_time(t),
{
    match t {
        Some(t) => Some(rfc3339(t)),
        None => None,
    }
}

impl DocumentResponse {
    /// A document as the node of that name hands it out.
    pub fn from_doc(doc: Document, node_name: String) -> (r: DocumentResponse)
        ensures
            r.key@ == doc.key@,
            r.value@ == doc.value@,
            r.cas == doc.cas,
            r.rev_id == doc.rev_id,
            r.seq_no == doc.seq_no,
            opt_text(r.expiry) == opt_time(doc.expiry),
            r.flags == doc.flags,
            r.vbucket_id == doc.vbucket_id,
            r.created_at@ == rfc3339_of(doc.created_at),
            r.updated_at@ == rfc3339_of(doc.updated_at),
            r.served_by@ == node_name@,
    {
        let expiry = opt_time_text(doc.expiry);
        let created_at = rfc3339(doc.created_at);
        let updated_at = rfc3339(doc.updated_at);
        DocumentResponse {
            key: doc.key,
            value: doc.value,
            cas: doc.cas,
            rev_id: doc.rev_id,
            seq_no: doc.seq_no,
            expiry,
            flags: doc.flags,
            vbucket_id: doc.vbucket_id,
            created_at,
            updated_at,
            served_by: node_name,
        }
    }
}

// ---- Where a document is served ----

/// Where the documents of a vBucket are served: here, at another node's address, or nowhere.
pub enum RouteView {
    Here,
    There(Seq<char>),
    Lost(Seq<char>),
}

/// Where the documents of a vBucket are served.
pub open spec fn route_of(v: ClusterView, vbucket_id: u16) -> RouteView {
    let map = v.partition_map.map;
    if vbucket_id >= map.len() {
        RouteView::Lost("No active node for vBucket "@ + dec(vbucket_id as nat))
    } else {
        let owner = map[vbucket_id as int].active;
        if owner == v.self_node.name {
            RouteView::Here
        } else if v.has_node(owner) {
            let n = v.nodes[v.node_place(owner)->0];
            RouteView::There(url_of(n.hostname, n.port))
        } else {
            RouteView::Lost("Node '"@ + owner + "' URL not found"@)
        }
    }
}

/// The address of the node that serves a vBucket, if it is another one.
pub fn check_partition(cluster: &ClusterManager, vbucket_id: u16) -> (r: Result<Option<String>>)
    ensures
        match route_of(cluster@, vbucket_id) {
            RouteView::Here => r is Ok && r->Ok_0 is None,
            RouteView::There(url) => r is Ok && opt_text(r->Ok_0) == Some(url),
            RouteView::Lost(message) => match r {
                Err(NosqlError::Internal(m)) => m@ == message,
                _ => false,
            },
        },
{
    if cluster.is_vbucket_local(vbucket_id) {
        return Ok(None);
    }
    match cluster.get_active_node_for_vbucket(vbucket_id) {
        None => {
            let mut message = "No active node for vBucket ".to_owned();
            push_dec(&mut message, vbucket_id as u64);
            Err(NosqlError::Internal(message))
        },
        Some(owner) => match cluster.get_node_url(owner.as_str()) {
            Some(url) => Ok(Some(url)),
            None => {
                let mut message = "Node '".to_owned();
                message.append(owner.as_str());
                message.append("' URL not found");
                Err(NosqlError::Internal(message))
            },
        },
    }
}

/// The address to which a request is forwarded, if it is: a lone node serves everything itself.
pub fn forward_to(cluster: &ClusterManager, vbucket_id: u16) -> (r: Result<Option<String>>)
    ensures
        if cluster@.nodes.len() <= 1 {
            r is Ok && r->Ok_0 is None
        } else {
            match route_of(cluster@, vbucket_id) {
                RouteView::Here => r is Ok && r->Ok_0 is None,
                RouteView::There(url) => r is Ok && opt_text(r->Ok_0) == Some(url),
                RouteView::Lost(message) => match r {
                    Err(NosqlError::Internal(m)) => m@ == message,
                    _ => false,
                },
            }
        },
{
    if cluster.is_single_node() {
        Ok(None)
    } else {
        check_partition(cluster, vbucket_id)
    }
}

/// The address of a document at a node.
pub open spec fn document_url_of(
    base: Seq<char>,
    bucket: Seq<char>,
    scope: Seq<char>,
    collection: Seq<char>,
    key: Seq<char>,
) -> Seq<char> {
    base + "/api/v1/docs/"@ + bucket + "/scopes/"@ + scope + "/collections/"@ + collection
        + "/docs/"@ + key
}

/// The address of a document at a node.
pub fn document_url(base: &str, bucket: &str, scope: &str, collection: &str, key: &str) -> (r: String)
    ensures
        r@ == document_url_of(base@, bucket@, scope@, collection@, key@),
{
    let mut url = base.to_owned();
    url.append("/api/v1/docs/");
    url.append(bucket);
    url.append("/scopes/");
    url.append(scope);
    url.append("/collections/");
    url.append(collection);
    url.append("/docs/");
    url.append(key);
    url
}

/// The address under which a document is deleted, with the version it must have.
pub fn delete_url(
    base: &str,
    bucket: &str,
    scope: &str,
    collection: &str,
    key: &str,
    cas: Option<u64>,
) -> (r: String)
    ensures
        r@ == document_url_of(base@, bucket@, scope@, collection@, key@) + match cas {
            Some(c) => "?cas="@ + dec(c as nat),
            None => Seq::empty(),
        },
{
    let mut url = document_url(base, bucket, scope, collection, key);
    let ghost plain = url@;
    match cas {
        Some(c) => {
            url.append("?cas=");
            push_dec(&mut url, c);
            assert(url@ =~= plain + ("?cas="@ + dec(c as nat)));
        },
        None => {
            assert(plain + Seq::<char>::empty() =~= plain);
        },
    }
    url
}

/// The address under which a document is touched.
pub fn touch_url(base: &str, bucket: &str, scope: &str, collection: &str, key: &str) -> (r: String)
    ensures
        r@ == document_url_of(base@, bucket@, scope@, collection@, key@) + "/touch"@,
{
    let mut url = document_url(base, bucket, scope, collection, key);
    url.append("/touch");
    url
}

/// The kinds of requests that are forwarded.
#[derive(Clone, Copy, Debug, PartialEq, Eq, Structural)]
pub enum Forwarded {
    Get,
    Put,
    Delete,
    Touch,
}

impl Forwarded {
    pub open spec fn name(self) -> Seq<char> {
        match self {
            Forwarded::Get => "GET"@,
            Forwarded::Put => "PUT"@,
            Forwarded::Delete => "DELETE"@,
            Forwarded::Touch => "TOUCH"@,
        }
    }

    /// What is said before the reason why an answer could not be read.
    pub open spec fn unread(self) -> Seq<char> {
        match self {
            Forwarded::Touch => "Forward response error: "@,
            _ => "Forward response parse error: "@,
        }
    }

    /// Whether an answer that nothing was found is passed on as such.
    pub open spec fn tells_missing(self) -> bool {
        self == Forwarded::Get || self == Forwarded::Delete
    }
}

/// What came of a request to another node that did not succeed.
#[derive(Debug)]
pub enum ForwardFailure {
    /// It could not be sent.
    NotSent(String),
    /// The answer could not be read.
    Unreadable(String),
    /// It was refused with a status, and perhaps an error text.
    Refused(u16, Option<String>),
}

/// The message for a request to another node that did not succeed; none where the document was not
/// found.
pub open spec fn forward_message(kind: Forwarded, failure: ForwardFailure) -> Option<Seq<char>> {
    match failure {
        ForwardFailure::NotSent(e) => Some("Forward "@ + kind.name() + " failed: "@ + e@),
        ForwardFailure::Unreadable(e) => Some(kind.unread() + e@),
        ForwardFailure::Refused(status, e) => if status == 404 && kind.tells_missing() {
            None
        } else {
            Some(
                "Remote node error: "@ + match e {
                    Some(t) => t@,
                    None => "Unknown error"@,
                },
            )
        },
    }
}

/// The error for a request to another node that did not succeed.
pub fn forward_error(kind: Forwarded, key: &str, failure: &ForwardFailure) -> (r: NosqlError)
    ensures
        match (forward_message(kind, *failure), r) {
            (Some(message), NosqlError::Internal(m)) => m@ == message,
            (None, NosqlError::DocumentNotFound(k)) => k@ == key@,
            _ => false,
        },
{
    match failure {
        ForwardFailure::NotSent(e) => {
            let mut message = "Forward ".to_owned();
            let name = match kind {
                Forwarded::Get => "GET",
                Forwarded::Put => "PUT",
                Forwarded::Delete => "DELETE",
                Forwarded::Touch => "TOUCH",
            };
            message.append(name);
            message.append(" failed: ");
            message.append(e.as_str());
            NosqlError::Internal(message)
        },
        ForwardFailure::Unreadable(e) => {
            let head = match kind {
                Forwarded::Touch => "Forward response error: ",
                _ => "Forward response parse error: ",
            };
            let mut message = head.to_owned();
            message.append(e.as_str());
            NosqlError::Internal(message)
        },
        ForwardFailure::Refused(status, e) => {
            if *status == 404 && (kind == Forwarded::Get || kind == Forwarded::Delete) {
                return NosqlError::DocumentNotFound(key.to_owned());
            }
            let mut message = "Remote node error: ".to_owned();
            match e {
                Some(t) => {
                    message.append(t.as_str());
                },
                None => {
                    message.append("Unknown error");
                },
            }
            NosqlError::Internal(message)
        },
    }
}

// ---- Writing ----

/// What a request to write asks of the storage.
#[derive(Debug)]
pub enum WriteCall {
    /// To replace the version with that number.
    Replace(u64),
    /// To write whatever is there, with an expiry.
    Upsert(Option<u64>),
}

/// What a request to write asks of the storage.
pub fn write_call(req: &UpsertDocumentRequest) -> (r: WriteCall)
    ensures
        r == write_call_of(*req),
{
    match req.cas {
        Some(cas) => WriteCall::Replace(cas),
        None => WriteCall::Upsert(req.expiry),
    }
}

// ---- Who is let through, and where to ----

/// Where a request is served.
#[derive(Debug)]
pub enum Access {
    Here,
    /// At the node with that address.
    There(String),
}

/// Why a user is not let through.
pub open spec fn refusal_of(user: AuthUser, permission: PermissionView) -> Seq<char> {
    "User '"@ + user.0@.username + "' does not have permission: "@ + permission_words(permission)
}

/// Whether a user may do something.
pub open spec fn is_allowed(user: AuthUser, rbac: RbacManager, permission: PermissionView) -> bool {
    rbac@.contains_key(user.0@.username) && may(rbac@[user.0@.username], permission)
}

/// Whether a request ends up where it should: users without the permission are refused first; a
/// bucket that cannot be had fails the request; in a cluster of several nodes the owner of the
/// vBucket serves it.
pub open spec fn access_is(
    allowed: bool,
    refusal: Seq<char>,
    cluster: ClusterView,
    vbucket: Result<u16>,
    r: Result<Access>,
) -> bool {
    if !allowed {
        match r {
            Err(NosqlError::InvalidRequest(m)) => m@ == refusal,
            _ => false,
        }
    } else {
        match vbucket {
            Err(e) => r is Err && r->Err_0 == e,
            Ok(id) => if cluster.nodes.len() <= 1 {
                r is Ok && r->Ok_0 is Here
            } else {
                match route_of(cluster, id) {
                    RouteView::Here => r is Ok && r->Ok_0 is Here,
                    RouteView::There(url) => match r {
                        Ok(Access::There(u)) => u@ == url,
                        _ => false,
                    },
                    RouteView::Lost(message) => match r {
                        Err(NosqlError::Internal(m)) => m@ == message,
                        _ => false,
                    },
                }
            },
        }
    }
}

/// Where a request of a user is served, given the vBucket of the key or why the bucket cannot be
/// had.
pub fn plan_access(
    user: &AuthUser,
    rbac: &RbacManager,
    permission: &Permission,
    cluster: &ClusterManager,
    vbucket: Result<u16>,
) -> (r: Result<Access>)
    requires
        rbac.wf(),
    ensures
        access_is(
            is_allowed(*user, *rbac, permission@),
            refusal_of(*user, permission@),
            cluster@,
            vbucket,
            r,
        ),
{
    match require_permission(user, rbac, permission) {
        Ok(_) => {},
        Err(e) => {
            return Err(NosqlError::InvalidRequest(e.message));
        },
    }
    let id: u16 = match vbucket {
        Ok(id) => id,
        Err(e) => {
            return Err(e);
        },
    };
    match forward_to(cluster, id) {
        Ok(Some(url)) => Ok(Access::There(url)),
        Ok(None) => Ok(Access::Here),
        Err(e) => Err(e),
    }
}

/// Where a document is read.
pub fn get_document(
    user: &AuthUser,
    rbac: &RbacManager,
    cluster: &ClusterManager,
    bucket: &str,
    vbucket: Result<u16>,
) -> (r: Result<Access>)
    requires
        rbac.wf(),
    ensures
        access_is(
            is_allowed(*user, *rbac, PermissionView::BucketRead(bucket@)),
            refusal_of(*user, PermissionView::BucketRead(bucket@)),
            cluster@,
            vbucket,
            r,
        ),
{
    plan_access(user, rbac, &Permission::BucketRead(bucket.to_owned()), cluster, vbucket)
}

/// Where a document is deleted.
pub fn delete_document(
    user: &AuthUser,
    rbac: &RbacManager,
    cluster: &ClusterManager,
    bucket: &str,
    vbucket: Result<u16>,
) -> (r: Result<Access>)
    requires
        rbac.wf(),
    ensures
        access_is(
            is_allowed(*user, *rbac, PermissionView::BucketWrite(bucket@)),
            refusal_of(*user, PermissionView::BucketWrite(bucket@)),
            cluster@,
            vbucket,
            r,
        ),
{
    plan_access(user, rbac, &Permission::BucketWrite(bucket.to_owned()), cluster, vbucket)
}

/// What a request to write comes to.
#[derive(Debug)]
pub enum UpsertPlan {
    /// The node with that address writes.
    Forward(String),
    /// The storage here is asked to write, and the write has to become durable.
    Write(WriteCall, DurabilityRequirement),
}

/// What a request to write asks of the storage.
pub open spec fn write_call_of(req: UpsertDocumentRequest) -> WriteCall {
    match req.cas {
        Some(cas) => WriteCall::Replace(cas),
        None => WriteCall::Upsert(req.expiry),
    }
}

/// The durability that a request asks for.
pub open spec fn durability_of(req: UpsertDocumentRequest) -> DurabilityRequirement {
    DurabilityRequirement {
        level: match req.durability_level {
            Some(l) => l,
            None => DurabilityLevel::NoDurability,
        },
        timeout_ms: match req.durability_timeout_ms {
            Some(ms) => ms,
            None => 2500,
        },
    }
}

/// What a request to write comes to.
pub fn upsert_document(
    user: &AuthUser,
    rbac: &RbacManager,
    cluster: &ClusterManager,
    bucket: &str,
    vbucket: Result<u16>,
    req: &UpsertDocumentRequest,
) -> (r: Result<UpsertPlan>)
    requires
        rbac.wf(),
    ensures
        access_is(
            is_allowed(*user, *rbac, PermissionView::BucketWrite(bucket@)),
            refusal_of(*user, PermissionView::BucketWrite(bucket@)),
            cluster@,
            vbucket,
            match r {
                Ok(UpsertPlan::Forward(url)) => Ok(Access::There(url)),
                Ok(UpsertPlan::Write(_, _)) => Ok(Access::Here),
                Err(e) => Err(e),
            },
        ),
        match r {
            Ok(UpsertPlan::Write(call, durability)) => call == write_call_of(*req) && durability
                == durability_of(*req),
            _ => true,
        },
{
    let permission = Permission::BucketWrite(bucket.to_owned());
    match plan_access(user, rbac, &permission, cluster, vbucket) {
        Ok(Access::There(url)) => Ok(UpsertPlan::Forward(url)),
        Ok(Access::Here) => Ok(UpsertPlan::Write(write_call(req), requested_durability(req))),
        Err(e) => Err(e),
    }
}

/// Tells streams and search indexes of a document that was written, at a given time; the event that
/// goes to the streams.
pub fn document_written(
    dcp: &mut DcpEngine,
    fts: &mut FtsEngine,
    bucket: &str,
    scope: &str,
    collection: &str,
    doc: &Document,
    value: &Json,
    now: i128,
) -> (r: DcpEvent)
    requires
        old(dcp).wf(),
        old(dcp)@.global_seq < u64::MAX,
        old(fts).wf(),
        forall|name: Seq<char>| #[trigger]
            old(fts)@.contains_key(name) && follows_bucket(old(fts)@[name].definition, bucket@)
                ==> document_fits(old(fts)@[name].definition, *value),
    ensures
        final(dcp).wf(),
        final(dcp)@ == old(dcp)@.published(bucket@, scope@, collection@, doc.vbucket_id),
        r@ == mutation_event(
            old(dcp)@.global_seq,
            bucket@,
            scope@,
            collection@,
            doc.key@,
            Some(doc.value@),
            doc.cas,
            doc.vbucket_id,
            remaining_seconds(doc.expiry, now),
            now,
        ),
        final(fts).wf(),
        final(fts)@.dom() == old(fts)@.dom(),
        forall|name: Seq<char>| #[trigger]
            old(fts)@.contains_key(name) ==> final(fts)@[name] == (FtsIndexView {
                data: after_upsert(old(fts)@[name], bucket@, doc.key@, *value),
                definition: if follows_bucket(old(fts)@[name].definition, bucket@) {
                    recounted(old(fts)@[name].definition, final(fts).indexes@[name].data)
                } else {
                    old(fts)@[name].definition
                },
            }),
{
    let event = dcp.publish_mutation_at(
        bucket,
        scope,
        collection,
        doc.key.as_str(),
        Some(doc.value.as_str()),
        doc.cas,
        doc.vbucket_id,
        seconds_left(doc.expiry, now),
        now,
    );
    fts.on_document_upsert(bucket, doc.key.as_str(), value);
    event
}

/// Tells streams and search indexes of a document that was deleted, at a given time; the event that
/// goes to the streams.
pub fn document_removed(
    dcp: &mut DcpEngine,
    fts: &mut FtsEngine,
    bucket: &str,
    scope: &str,
    collection: &str,
    doc: &Document,
    now: i128,
) -> (r: DcpEvent)
    requires
        old(dcp).wf(),
        old(dcp)@.global_seq < u64::MAX,
        old(fts).wf(),
    ensures
        final(dcp).wf(),
        final(dcp)@ == old(dcp)@.published(bucket@, scope@, collection@, doc.vbucket_id),
        r@ == removal_event(
            DcpEventType::Deletion,
            old(dcp)@.global_seq,
            bucket@,
            scope@,
            collection@,
            doc.key@,
            doc.cas,
            doc.vbucket_id,
            now,
        ),
        final(fts).wf(),
        final(fts)@.dom() == old(fts)@.dom(),
        forall|name: Seq<char>| #[trigger]
            old(fts)@.contains_key(name) ==> final(fts)@[name] == (FtsIndexView {
                data: after_delete(old(fts)@[name], bucket@, doc.key@),
                definition: if follows_bucket(old(fts)@[name].definition, bucket@) {
                    recounted(old(fts)@[name].definition, final(fts).indexes@[name].data)
                } else {
                    old(fts)@[name].definition
                },
            }),
{
    let event = dcp.publish_deletion_at(
        bucket,
        scope,
        collection,
        doc.key.as_str(),
        doc.cas,
        doc.vbucket_id,
        now,
    );
    fts.on_document_delete(bucket, doc.key.as_str());
    event
}

// ---- Durable writes ----

/// The durability that a request asks for.
pub fn requested_durability(req: &UpsertDocumentRequest) -> (r: DurabilityRequirement)
    ensures
        r == durability_of(*req),
{
    DurabilityRequirement {
        level: match req.durability_level {
            Some(l) => l,
            None => DurabilityLevel::NoDurability,
        },
        timeout_ms: match req.durability_timeout_ms {
            Some(ms) => ms,
            None => 2500,
        },
    }
}

/// The replicas of a vBucket; none where there is no such vBucket.
pub open spec fn replicas_of(map: crate::cluster::partition::PartitionMapView, vbucket_id: u16) -> Seq<
    Seq<char>,
> {
    if vbucket_id < map.map.len() {
        map.map[vbucket_id as int].replicas
    } else {
        Seq::empty()
    }
}

/// A token for a write that no replica has acknowledged.
pub open spec fn fresh_token(
    doc: Document,
    requirement: DurabilityRequirement,
    replicas: Seq<Seq<char>>,
    token: TokenView,
) -> bool {
    token == (TokenView {
        key: doc.key@,
        vbucket_id: doc.vbucket_id,
        cas: doc.cas,
        seq_no: doc.seq_no,
        requirement,
        replica_acks: Seq::new(replicas.len(), |i: int| (replicas[i], false)),
        active_persisted: false,
        created_at: token.created_at,
    })
}

/// The pending writes after one was registered; where it has to be on disk at the active node, it
/// is by then.
pub open spec fn after_durable_write(pending: Seq<TokenView>, token: TokenView) -> Seq<TokenView> {
    let known = registered(pending, token);
    if persists_active(token.requirement.level) {
        match token_place(known, token.vbucket_id, token.cas, 0) {
            Some(i) => settled(known, i, known[i].persisted()),
            None => known,
        }
    } else {
        known
    }
}

/// Registers a write that asks for durability; the replicas to wait for.
pub fn begin_durable_write(
    durability: &mut DurabilityManager,
    map: &PartitionMap,
    doc: &Document,
    requirement: DurabilityRequirement,
) -> (r: Vec<String>)
    requires
        old(durability).wf(),
    ensures
        final(durability).wf(),
        if requirement.level == DurabilityLevel::NoDurability {
            r@.len() == 0 && final(durability)@ == old(durability)@
        } else {
            &&& texts(r@) == replicas_of(map@, doc.vbucket_id)
            &&& exists|token: TokenView| #[trigger]
                fresh_token(*doc, requirement, replicas_of(map@, doc.vbucket_id), token)
                    && final(durability)@ == after_durable_write(old(durability)@, token)
        },
{
    if requirement.level == DurabilityLevel::NoDurability {
        return Vec::new();
    }
    let ghost before = durability@;
    let ghost replicas = replicas_of(map@, doc.vbucket_id);
    let nodes = if (doc.vbucket_id as usize) < map.map.len() {
        assert(map@.map[doc.vbucket_id as int] == map.map@[doc.vbucket_id as int]@);
        copy_texts(&map.map[doc.vbucket_id as usize].replica_nodes)
    } else {
        let none: Vec<String> = Vec::new();
        assert(texts(none@) =~= Seq::<Seq<char>>::empty());
        none
    };
    assert(texts(nodes@) == replicas);
    let waiting = copy_texts(&nodes);
    let token = DurabilityToken::new(
        doc.key.clone(),
        doc.vbucket_id,
        doc.cas,
        doc.seq_no,
        requirement,
        nodes,
    );
    let ghost view = token@;
    assert(texts(nodes@).len() == nodes@.len());
    assert(view.replica_acks =~= Seq::new(replicas.len(), |i: int| (replicas[i], false)));
    assert(fresh_token(*doc, requirement, replicas, view));
    durability.register(token);
    if requirement.requires_persist_active() {
        let _acked = durability.ack_persist(doc.vbucket_id, doc.cas);
    }
    assert(durability@ == after_durable_write(before, view));
    waiting
}

/// Whether the wait for the durability of a write is over: the time is up, the write waits for
/// nothing any more, or there are no replicas to wait for.
pub fn durability_wait_is_over(
    durability: &DurabilityManager,
    doc: &Document,
    elapsed_ms: u64,
    timeout_ms: u64,
    replicas: usize,
) -> (r: bool)
    ensures
        r == (elapsed_ms >= timeout_ms || token_place(
            durability@,
            doc.vbucket_id,
            doc.cas,
            0,
        ) is None || replicas == 0),
{
    elapsed_ms >= timeout_ms || !durability.is_pending(doc.vbucket_id, doc.cas) || replicas == 0
}

/// The answer when a document was deleted.
pub fn document_deleted(key: &str, node: &str) -> (r: Json)
    ensures
        r@ == JsonView::object()
            .with("status"@, JsonView::Text("ok"@))
            .with("message"@, JsonView::Text("Document '"@ + key@ + "' deleted"@))
            .with("served_by"@, JsonView::Text(node@)),
{
    let mut message = "Document '".to_owned();
    message.append(key);
    message.append("' deleted");
    Json::object()
        .with("status", json_text("ok"))
        .with("message", json_text(message.as_str()))
        .with("served_by", json_text(node))
}

/// The answer when an extended attribute was written or deleted.
pub fn xattr_changed(key: &str, path: &str, cas: u64) -> (r: Json)
    ensures
        r@ == JsonView::object()
            .with("status"@, JsonView::Text("ok"@))
            .with("key"@, JsonView::Text(key@))
            .with("path"@, JsonView::Text(path@))
            .with("cas"@, number(cas as nat)),
{
    Json::object()
        .with("status", json_text("ok"))
        .with("key", json_text(key))
        .with("path", json_text(path))
        .with("cas", json_number(cas))
}

/// The answer where nothing is kept on disk.
pub fn persistence_disabled() -> (r: Json)
    ensures
        r@ == JsonView::object()
            .with("status"@, JsonView::Text("disabled"@))
            .with("message"@, JsonView::Text("Persistence is not enabled"@)),
{
    Json::object()
        .with("status", json_text("disabled"))
        .with("message", json_text("Persistence is not enabled"))
}

// ---- Laws ----

/// The documents of a vBucket are served by its owner: here where that is this node, else at the
/// address of the node of that name; without an owner, or where nobody knows the owner, nowhere.
pub proof fn law_owners_serve(v: ClusterView, id: u16, i: int)
    requires
        v.valid(),
    ensures
        id >= v.partition_map.map.len() ==> route_of(v, id) is Lost,
        id < v.partition_map.map.len() ==> ({
            let owner = v.partition_map.map[id as int].active;
            &&& owner == v.self_node.name ==> route_of(v, id) is Here
            &&& owner != v.self_node.name && 0 <= i < v.nodes.len() && v.nodes[i].name == owner
                ==> route_of(v, id) == RouteView::There(
                "http://"@ + v.nodes[i].hostname + ":"@ + dec(v.nodes[i].port as nat),
            )
            &&& owner != v.self_node.name && (forall|k: int|
                0 <= k < v.nodes.len() ==> (#[trigger] v.nodes[k]).name != owner) ==> route_of(
                v,
                id,
            ) is Lost
        }),
{
    if id < v.partition_map.map.len() {
        let owner = v.partition_map.map[id as int].active;
        let names = node_names(v.nodes);
        lemma_has_node(v, owner);
        if 0 <= i < v.nodes.len() && v.nodes[i].name == owner {
            assert(names[i] == owner);
            assert(names.contains(owner));
            let p = v.node_place(owner)->0;
            assert(names[p] == owner);
        }
    }
}

/// Nothing is done for a user without the permission, nor for a bucket that cannot be had; a lone
/// node does everything itself, and otherwise the owner of the vBucket does.
pub proof fn law_requests_are_done_by_the_owner(
    allowed: bool,
    refusal: Seq<char>,
    v: ClusterView,
    vbucket: Result<u16>,
    r: Result<Access>,
)
    requires
        v.valid(),
        access_is(allowed, refusal, v, vbucket, r),
    ensures
        r is Ok ==> allowed && vbucket is Ok,
        !allowed ==> r is Err && r->Err_0 is InvalidRequest && r->Err_0->InvalidRequest_0@ == refusal,
        allowed && vbucket is Err ==> r is Err && r->Err_0 == vbucket->Err_0,
        allowed && vbucket is Ok && v.nodes.len() <= 1 ==> r is Ok && r->Ok_0 is Here,
        allowed && vbucket is Ok && v.nodes.len() > 1 && vbucket->Ok_0 < v.partition_map.map.len() ==> {
            let owner = v.partition_map.map[vbucket->Ok_0 as int].active;
            &&& owner == v.self_node.name ==> r is Ok && r->Ok_0 is Here
            &&& r is Ok && r->Ok_0 is Here ==> owner == v.self_node.name
            &&& r is Ok && r->Ok_0 is There ==> exists|i: int|
                0 <= i < v.nodes.len() && (#[trigger] v.nodes[i]).name == owner && r->Ok_0->There_0@
                    == "http://"@ + v.nodes[i].hostname + ":"@ + dec(v.nodes[i].port as nat)
            &&& r is Err ==> r->Err_0 is Internal
        },
        allowed && vbucket is Ok && v.nodes.len() > 1 && vbucket->Ok_0 >= v.partition_map.map.len()
            ==> r is Err && r->Err_0 is Internal,
{
    if vbucket is Ok && vbucket->Ok_0 < v.partition_map.map.len() {
        let owner = v.partition_map.map[vbucket->Ok_0 as int].active;
        lemma_has_node(v, owner);
        if v.has_node(owner) {
            law_owners_serve(v, vbucket->Ok_0, v.node_place(owner)->0);
        } else {
            law_owners_serve(v, vbucket->Ok_0, 0);
        }
    }
}

/// A user may do what one of the roles under the user's name grants.
pub proof fn law_permission_goes_by_the_name(
    user: AuthUser,
    rbac: RbacManager,
    permission: PermissionView,
    i: int,
)
    ensures
        !rbac@.contains_key(user.0@.username) ==> !is_allowed(user, rbac, permission),
        rbac@.contains_key(user.0@.username) && 0 <= i < rbac@[user.0@.username].roles.len() && grants(
            rbac@[user.0@.username].roles[i].role,
            rbac@[user.0@.username].roles[i].bucket,
            permission,
        ) ==> is_allowed(user, rbac, permission),
        rbac@.contains_key(user.0@.username) && rbac@[user.0@.username].roles.len() == 0
            ==> !is_allowed(user, rbac, permission),
{
}

/// A version in the request makes the write replace that version; without one it writes whatever is
/// there, with the expiry of the request. Without a level the write need not be durable, and without
/// a time it has two and a half seconds.
pub proof fn law_requests_say_what_is_written(req: UpsertDocumentRequest)
    ensures
        req.cas is Some ==> write_call_of(req) == WriteCall::Replace(req.cas->0),
        req.cas is None ==> write_call_of(req) == WriteCall::Upsert(req.expiry),
        req.durability_level is Some ==> durability_of(req).level == req.durability_level->0,
        req.durability_level is None ==> durability_of(req).level == DurabilityLevel::NoDurability,
        req.durability_timeout_ms is Some ==> durability_of(req).timeout_ms
            == req.durability_timeout_ms->0,
        req.durability_timeout_ms is None ==> durability_of(req).timeout_ms == 2500,
{
}

/// A document is missing only where the other node says so to a request to read or to delete; other
/// failures tell their reason.
pub proof fn law_failures_tell_their_reason(kind: Forwarded, text: String, status: u16)
    ensures
        forward_message(kind, ForwardFailure::NotSent(text)) == Some(
            "Forward "@ + kind.name() + " failed: "@ + text@,
        ),
        forward_message(kind, ForwardFailure::Unreadable(text)) is Some,
        forward_message(kind, ForwardFailure::Refused(status, Some(text))) is None <==> status == 404 && (
        kind == Forwarded::Get || kind == Forwarded::Delete),
        forward_message(kind, ForwardFailure::Refused(status, None)) is None <==> status == 404 && (kind
            == Forwarded::Get || kind == Forwarded::Delete),
        status != 404 ==> forward_message(kind, ForwardFailure::Refused(status, Some(text))) == Some(
            "Remote node error: "@ + text@,
        ),
        status != 404 ==> forward_message(kind, ForwardFailure::Refused(status, None)) == Some(
            "Remote node error: "@ + "Unknown error"@,
        ),
        Forwarded::Get.name() == "GET"@,
        Forwarded::Put.name() == "PUT"@,
        Forwarded::Delete.name() == "DELETE"@,
        Forwarded::Touch.name() == "TOUCH"@,
        kind != Forwarded::Touch ==> forward_message(kind, ForwardFailure::Unreadable(text)) == Some(
            "Forward response parse error: "@ + text@,
        ),
        forward_message(Forwarded::Touch, ForwardFailure::Unreadable(text)) == Some(
            "Forward response error: "@ + text@,
        ),
{
}

/// A document's address leads from the bucket over scope and collection to the key.
pub proof fn law_document_addresses(
    base: Seq<char>,
    bucket: Seq<char>,
    scope: Seq<char>,
    collection: Seq<char>,
    key: Seq<char>,
)
    ensures
        document_url_of(base, bucket, scope, collection, key) == base + ("/api/v1/docs/"@ + (bucket + (
        "/scopes/"@ + (scope + ("/collections/"@ + (collection + ("/docs/"@ + key))))))),
{
    assert(document_url_of(base, bucket, scope, collection, key) =~= base + ("/api/v1/docs/"@ + (bucket
        + ("/scopes/"@ + (scope + ("/collections/"@ + (collection + ("/docs/"@ + key))))))));
}

/// A durable write waits for every replica of its vBucket, none of which has acknowledged yet, and
/// is known by its vBucket and its version.
pub proof fn law_durable_writes_wait_for_the_replicas(
    doc: Document,
    requirement: DurabilityRequirement,
    map: crate::cluster::partition::PartitionMapView,
    token: TokenView,
    i: int,
)
    requires
        fresh_token(doc, requirement, replicas_of(map, doc.vbucket_id), token),
    ensures
        token.key == doc.key@,
        token.vbucket_id == doc.vbucket_id,
        token.cas == doc.cas,
        token.seq_no == doc.seq_no,
        token.requirement == requirement,
        !token.active_persisted,
        doc.vbucket_id < map.map.len() ==> token.replica_acks.len()
            == map.map[doc.vbucket_id as int].replicas.len(),
        doc.vbucket_id >= map.map.len() ==> token.replica_acks.len() == 0,
        doc.vbucket_id < map.map.len() && 0 <= i < token.replica_acks.len() ==> token.replica_acks[i]
            == (map.map[doc.vbucket_id as int].replicas[i], false),
{
}

/// A durable write becomes pending, and counts as written at the active node where the level asks for
/// that; what else is pending stays so.
pub proof fn law_durable_writes_become_pending(pending: Seq<TokenView>, token: TokenView)
    requires
        forall|k: int|
            0 <= k < pending.len() ==> !((#[trigger] pending[k]).vbucket_id == token.vbucket_id
                && pending[k].cas == token.cas),
    ensures
        token.requirement.level == DurabilityLevel::Majority ==> after_durable_write(pending, token)
            == pending + seq![token],
        (token.requirement.level == DurabilityLevel::MajorityAndPersistToActive
            || token.requirement.level == DurabilityLevel::PersistToMajority)
            && !token.persisted().satisfied() ==> after_durable_write(pending, token) == pending
            + seq![TokenView { active_persisted: true, ..token }],
        (token.requirement.level == DurabilityLevel::MajorityAndPersistToActive
            || token.requirement.level == DurabilityLevel::PersistToMajority)
            && token.persisted().satisfied() ==> after_durable_write(pending, token) == pending,
{
    law_pending_means_a_token(pending, token.vbucket_id, token.cas);
    let known = pending.push(token);
    let n = pending.len() as int;
    assert(registered(pending, token) == known);
    assert forall|k: int| 0 <= k < n implies !(#[trigger] known[k]).is_for(
        token.vbucket_id,
        token.cas,
    ) by {
        assert(known[k] == pending[k]);
    }
    lemma_place_last(known, token.vbucket_id, token.cas, 0);
    assert(known =~= pending + seq![token]);
    assert(known.update(n, token.persisted()) =~= pending + seq![token.persisted()]);
    assert(known.remove(n) =~= pending);
}

proof fn lemma_place_last(known: Seq<TokenView>, vbucket_id: u16, cas: u64, i: int)
    requires
        0 <= i < known.len(),
        known.last().is_for(vbucket_id, cas),
        forall|k: int|
            0 <= k < known.len() - 1 ==> !(#[trigger] known[k]).is_for(vbucket_id, cas),
    ensures
        token_place(known, vbucket_id, cas, i) == Some(known.len() - 1),
    decreases known.len() - i,
{
    if i < known.len() - 1 {
        lemma_place_last(known, vbucket_id, cas, i + 1);
    }
}

/// A refusal tells who lacks which permission.
pub proof fn law_refusals_name_user_and_permission(user: AuthUser, permission: PermissionView)
    ensures
        refusal_of(user, permission) == "User '"@ + (user.0@.username + (
        "' does not have permission: "@ + permission_words(permission))),
{
    assert(refusal_of(user, permission) =~= "User '"@ + (user.0@.username + (
    "' does not have permission: "@ + permission_words(permission))));
}

} // verus!
