//! Requests about the cluster.

use crate::api::bucket_routes::{
    about, about_text, bucket_route, bucket_route_text, bucket_type_of, collections_route,
    collections_route_text, conflict_resolution_of, law_words_name_their_kind,
    named, named_json, ok_answer, ok_json, scope_views, BucketConfig, BucketConfigView,
    BucketType, ConflictResolutionType, ScopeResponse, ScopeView,
};
use crate::cluster::failover::{FailoverConfig, FailoverEvent, FailoverType};
use crate::cluster::manager::ClusterManager;
use crate::cluster::node::{GroupView, ServerGroup};
use crate::cluster::partition::{
    NodePartitionInfo, OwnershipView, PartitionMap, RebalanceStatus, TransferStatus, TransferView,
    VBucketData, VBucketOwnership, VBucketTransfer,
};
use crate::error::Result;
use crate::fts::json::{join, join_texts};
use crate::json::{json_number, json_text, json_texts, number, text_items, Json, JsonView};
use crate::text::{dec, push_dec, same_text, texts};
use vstd::prelude::*;
use vstd::string::*;

verus! {

/// A request to take a node in.
#[derive(Debug)]
pub struct AddNodeRequest {
    pub name: String,
    pub hostname: String,
    pub port: u16,
}

/// The documents of a vBucket, on their way to another node.
pub struct VBucketTransferPayload {
    pub bucket: String,
    pub data: VBucketData,
}

/// A request to fail a node over.
#[derive(Debug)]
pub struct FailoverRequest {
    /// `graceful` or `hard`.
    pub failover_type: String,
}

pub fn default_failover_type() -> (r: String)
    ensures
        r@ == "graceful"@,
{
    "graceful".to_owned()
}

/// A request to create a server group.
#[derive(Debug)]
pub struct CreateServerGroupRequest {
    pub name: String,
}

/// A request to move a node to another server group.
#[derive(Debug)]
pub struct MoveNodeToGroupRequest {
    pub node_name: String,
    pub group_name: String,
}

/// The kind of failover that a request asks for: graceful, unless it says hard.
pub open spec fn requested_failover(req: FailoverRequest) -> FailoverType {
    if req.failover_type@ == "hard"@ {
        FailoverType::Hard
    } else {
        FailoverType::Graceful
    }
}

/// The reason that is recorded for a failover by an operator.
pub open spec fn failover_reason(t: FailoverType) -> Seq<char> {
    match t {
        FailoverType::Hard => "Hard failover initiated by operator"@,
        _ => "Graceful failover initiated by operator"@,
    }
}

/// Fails a node over at the request of an operator.
pub fn failover_node(cluster: &mut ClusterManager, node_name: &str, req: &FailoverRequest) -> (r:
    Result<FailoverEvent>)
    requires
        old(cluster).wf(),
        old(cluster)@.room(2),
    ensures
        final(cluster).wf(),
        r is Ok == (node_name@ != old(cluster)@.self_node.name && old(cluster)@.has_node(node_name@)
            && (requested_failover(*req) == FailoverType::Graceful
            ==> !old(cluster)@.failover.is_failed_over(node_name@))),
        match r {
            Ok(event) => final(cluster)@ == old(cluster)@.failed_over(
                node_name@,
                requested_failover(*req),
                failover_reason(requested_failover(*req)),
                event@.id,
                event@.timestamp,
            ) && event@ == old(cluster)@.failover_event(
                node_name@,
                requested_failover(*req),
                failover_reason(requested_failover(*req)),
                event@.id,
                event@.timestamp,
            ),
            Err(e) => final(cluster)@ == old(cluster)@ && if requested_failover(*req)
                == FailoverType::Hard {
                old(cluster)@.refuses_hard(node_name@, e)
            } else {
                old(cluster)@.refuses_graceful(node_name@, e)
            },
        },
{
    if same_text(req.failover_type.as_str(), "hard") {
        cluster.hard_failover(node_name)
    } else {
        cluster.graceful_failover(node_name)
    }
}

/// Whether numbers stand in ascending order.
pub open spec fn is_sorted(v: Seq<u16>) -> bool {
    forall|i: int, j: int| 0 <= i < j < v.len() ==> v[i] <= v[j]
}

fn sorted(v: &[u16]) -> (r: Vec<u16>)
    ensures
        is_sorted(r@),
        r@.to_multiset() == v@.to_multiset(),
        r@.len() == v@.len(),
{
    let mut out: Vec<u16> = Vec::new();
    let mut k: usize = 0;
    assert(v@.take(0) =~= Seq::<u16>::empty());
    while k < v.len()
        invariant
            k <= v@.len(),
            out@.len() == k,
            is_sorted(out@),
            out@.to_multiset() == v@.take(k as int).to_multiset(),
        decreases v@.len() - k,
    {
        let ghost prior = out@;
        let x: u16 = v[k];
        let mut p: usize = 0;
        while p < out.len() && out[p] <= x
            invariant
                p <= out@.len(),
                out@ == prior,
                is_sorted(prior),
                forall|i: int| 0 <= i < p ==> out@[i] <= x,
            decreases out@.len() - p,
        {
            p = p + 1;
        }
        out.insert(p, x);
        proof {
            vstd::seq_lib::to_multiset_insert(prior, p as int, x);
            vstd::seq_lib::to_multiset_build(v@.take(k as int), x);
            assert(v@.take(k + 1) =~= v@.take(k as int).push(x));
            assert forall|i: int, j: int| 0 <= i < j < out@.len() implies out@[i] <= out@[j] by {
                if i >= p && p < prior.len() {
                    assert(prior[p as int] > x);
                }
            }
        }
        k = k + 1;
    }
    assert(v@.take(k as int) =~= v@);
    out
}

/// The ranges of consecutive numbers among the first `k`, each by its first and its last number.
pub open spec fn ranges_of(v: Seq<u16>, k: int) -> Seq<(int, int)>
    decreases k,
{
    if k <= 0 {
        Seq::empty()
    } else {
        let rest = ranges_of(v, k - 1);
        let n = v[k - 1] as int;
        if rest.len() > 0 && rest.last().1 + 1 == n {
            rest.drop_last().push((rest.last().0, n))
        } else {
            rest.push((n, n))
        }
    }
}

/// How a range is written.
pub open spec fn range_text(r: (int, int)) -> Seq<char> {
    if r.0 == r.1 {
        dec(r.0 as nat)
    } else {
        dec(r.0 as nat) + "-"@ + dec(r.1 as nat)
    }
}

/// How ranges are written.
pub open spec fn range_texts(v: Seq<(int, int)>) -> Seq<Seq<char>> {
    Seq::new(v.len(), |i: int| range_text(v[i]))
}

/// How the ranges of numbers in ascending order are written.
pub open spec fn ranges_text(v: Seq<u16>) -> Seq<char> {
    if v.len() == 0 {
        "none"@
    } else {
        join(range_texts(ranges_of(v, v.len() as int)), ", "@)
    }
}

fn push_range(out: &mut Vec<String>, start: u16, end: u16)
    ensures
        texts(final(out)@) == texts(old(out)@).push(range_text((start as int, end as int))),
{
    let ghost prior = out@;
    let mut text = String::new();
    push_dec(&mut text, start as u64);
    if start != end {
        text.append("-");
        push_dec(&mut text, end as u64);
    }
    assert(text@ =~= range_text((start as int, end as int)));
    out.push(text);
    assert(texts(out@) =~= texts(prior).push(range_text((start as int, end as int))));
}

/// Writes numbers down as ranges, such as `0-255, 512-767`.
pub fn format_vbucket_ranges(vbuckets: &[u16]) -> (r: String)
    ensures
        exists|list: Seq<u16>| #[trigger]
            is_sorted(list) && list.to_multiset() == vbuckets@.to_multiset() && list.len()
                == vbuckets@.len() && r@ == ranges_text(list),
{
    let list = sorted(vbuckets);
    let n: usize = list.len();
    if n == 0 {
        let r = "none".to_owned();
        assert(is_sorted(list@) && r@ == ranges_text(list@));
        return r;
    }
    let mut parts: Vec<String> = Vec::new();
    let mut start: u16 = list[0];
    let mut end: u16 = list[0];
    let mut k: usize = 1;
    proof {
        reveal_with_fuel(ranges_of, 2);
        assert(ranges_of(list@, 1) =~= Seq::<(int, int)>::empty().push((start as int, end as int)));
        assert(texts(parts@) =~= range_texts(ranges_of(list@, 1).drop_last()));
    }
    while k < n
        invariant
            1 <= k <= n,
            n == list@.len(),
            ranges_of(list@, k as int).len() > 0,
            ranges_of(list@, k as int).last() == (start as int, end as int),
            texts(parts@) == range_texts(ranges_of(list@, k as int).drop_last()),
        decreases n - k,
    {
        let vb: u16 = list[k];
        let ghost rest = ranges_of(list@, k as int);
        let ghost now = ranges_of(list@, k + 1);
        if vb as u32 == end as u32 + 1 {
            end = vb;
            assert(now.drop_last() =~= rest.drop_last());
        } else {
            push_range(&mut parts, start, end);
            assert(now.drop_last() =~= rest);
            assert(range_texts(rest) =~= range_texts(rest.drop_last()).push(
                range_text((start as int, end as int)),
            ));
            start = vb;
            end = vb;
        }
        k = k + 1;
    }
    push_range(&mut parts, start, end);
    proof {
        let all = ranges_of(list@, n as int);
        assert(range_texts(all) =~= range_texts(all.drop_last()).push(
            range_text((start as int, end as int)),
        ));
    }
    let r = join_texts(&parts, ", ");
    assert(is_sorted(list@) && r@ == ranges_text(list@));
    r
}

/// Whether a number lies in one of the ranges.
pub open spec fn in_ranges(v: Seq<(int, int)>, n: int) -> bool {
    exists|i: int| 0 <= i < v.len() && (#[trigger] v[i]).0 <= n <= v[i].1
}

/// The ranges hold the numbers they were made from, and no others.
pub proof fn law_ranges_hold_the_numbers(v: Seq<u16>, k: int, n: int)
    requires
        0 <= k <= v.len(),
    ensures
        in_ranges(ranges_of(v, k), n) <==> exists|i: int| 0 <= i < k && #[trigger] v[i] == n,
    decreases k,
{
    lemma_range_order(v, k);
    if k > 0 {
        lemma_range_order(v, k - 1);
        law_ranges_hold_the_numbers(v, k - 1, n);
        let rest = ranges_of(v, k - 1);
        let now = ranges_of(v, k);
        let x = v[k - 1] as int;
        if rest.len() > 0 && rest.last().1 + 1 == x {
            if in_ranges(now, n) {
                let i = choose|i: int| 0 <= i < now.len() && (#[trigger] now[i]).0 <= n <= now[i].1;
                if i < now.len() - 1 {
                    assert(now[i] == rest[i]);
                    assert(in_ranges(rest, n));
                } else if n < x {
                    assert(rest[i].0 <= n <= rest[i].1);
                    assert(in_ranges(rest, n));
                } else {
                    assert(v[k - 1] == n);
                }
            }
            if in_ranges(rest, n) {
                let i = choose|i: int|
                    0 <= i < rest.len() && (#[trigger] rest[i]).0 <= n <= rest[i].1;
                if i < rest.len() - 1 {
                    assert(now[i] == rest[i]);
                } else {
                    assert(now[i].0 <= n <= now[i].1);
                }
            }
            if n == x {
                assert(now[now.len() - 1].0 <= n <= now[now.len() - 1].1);
            }
        } else {
            if in_ranges(now, n) {
                let i = choose|i: int| 0 <= i < now.len() && (#[trigger] now[i]).0 <= n <= now[i].1;
                if i < rest.len() {
                    assert(now[i] == rest[i]);
                    assert(in_ranges(rest, n));
                } else {
                    assert(v[k - 1] == n);
                }
            }
            if in_ranges(rest, n) {
                let i = choose|i: int|
                    0 <= i < rest.len() && (#[trigger] rest[i]).0 <= n <= rest[i].1;
                assert(now[i] == rest[i]);
            }
            if n == x {
                assert(now[rest.len() as int].0 <= n <= now[rest.len() as int].1);
            }
        }
    }
}

proof fn lemma_range_order(v: Seq<u16>, k: int)
    requires
        0 <= k <= v.len(),
    ensures
        forall|i: int|
            0 <= i < ranges_of(v, k).len() ==> (#[trigger] ranges_of(v, k)[i]).0
                <= ranges_of(v, k)[i].1,
    decreases k,
{
    if k > 0 {
        lemma_range_order(v, k - 1);
        let rest = ranges_of(v, k - 1);
        let now = ranges_of(v, k);
        assert forall|i: int| 0 <= i < now.len() implies (#[trigger] now[i]).0 <= now[i].1 by {
            if rest.len() > 0 && rest.last().1 + 1 == v[k - 1] as int {
                assert(rest[rest.len() - 1].0 <= rest[rest.len() - 1].1);
                if i < now.len() - 1 {
                    assert(now[i] == rest[i]);
                }
            } else if i < rest.len() {
                assert(now[i] == rest[i]);
            }
        }
    }
}

/// The name of a bucket's kind in lower case.
pub open spec fn bucket_type_word(t: BucketType) -> Seq<char> {
    match t {
        BucketType::Couchbase => "couchbase"@,
        BucketType::Ephemeral => "ephemeral"@,
        BucketType::Memcached => "memcached"@,
    }
}

/// The name of a conflict resolution in lower case.
pub open spec fn conflict_resolution_word(t: ConflictResolutionType) -> Seq<char> {
    match t {
        ConflictResolutionType::SequenceNumber => "sequencenumber"@,
        ConflictResolutionType::Timestamp => "timestamp"@,
    }
}

/// The request that creates a bucket on a node that has just joined.
pub open spec fn bucket_sync_json(c: BucketConfigView) -> JsonView {
    JsonView::object()
        .with("name"@, JsonView::Text(c.name))
        .with("bucket_type"@, JsonView::Text(bucket_type_word(c.bucket_type)))
        .with("ram_quota_mb"@, number(c.ram_quota_mb as nat))
        .with("num_replicas"@, number(c.num_replicas as nat))
        .with("flush_enabled"@, JsonView::Bool(c.flush_enabled))
        .with("conflict_resolution"@, JsonView::Text(conflict_resolution_word(c.conflict_resolution)))
}

/// A request to a node that has just joined.
pub struct SyncRequest {
    pub url: String,
    pub body: Json,
}

/// What a [`SyncRequest`] stands for.
pub struct SyncView {
    pub url: Seq<char>,
    pub body: JsonView,
}

impl View for SyncRequest {
    type V = SyncView;

    open spec fn view(&self) -> SyncView {
        SyncView { url: self.url@, body: self.body@ }
    }
}

/// What a list of requests stands for.
pub open spec fn sync_views(v: Seq<SyncRequest>) -> Seq<SyncView> {
    Seq::new(v.len(), |i: int| v[i]@)
}

/// The request that creates a bucket on a node that has just joined.
pub fn bucket_sync(node_url: &str, config: &BucketConfig) -> (r: SyncRequest)
    ensures
        r@ == (SyncView { url: node_url@ + "/api/v1/buckets"@, body: bucket_sync_json(config@) }),
{
    let mut url = node_url.to_owned();
    url.append("/api/v1/buckets");
    let bucket_type = match config.bucket_type {
        BucketType::Couchbase => "couchbase",
        BucketType::Ephemeral => "ephemeral",
        BucketType::Memcached => "memcached",
    };
    let resolution = match config.conflict_resolution {
        ConflictResolutionType::SequenceNumber => "sequencenumber",
        ConflictResolutionType::Timestamp => "timestamp",
    };
    let body = Json::object()
        .with("name", json_text(config.name.as_str()))
        .with("bucket_type", json_text(bucket_type))
        .with("ram_quota_mb", json_number(config.ram_quota_mb))
        .with("num_replicas", json_number(config.num_replicas as u64))
        .with("flush_enabled", Json::Bool(config.flush_enabled))
        .with("conflict_resolution", json_text(resolution));
    SyncRequest { url, body }
}

/// The request that creates a collection on a node that has just joined.
pub open spec fn collection_sync(
    node_url: Seq<char>,
    bucket: Seq<char>,
    scope: Seq<char>,
    collection: Seq<char>,
) -> SyncView {
    SyncView { url: node_url + collections_route(bucket, scope), body: named_json(collection) }
}

/// The requests for the first `k` collections of a scope; the default one is there already.
pub open spec fn collection_syncs(
    node_url: Seq<char>,
    bucket: Seq<char>,
    scope: ScopeView,
    k: int,
) -> Seq<SyncView>
    decreases k,
{
    if k <= 0 {
        Seq::empty()
    } else if scope.collections[k - 1] == "_default"@ {
        collection_syncs(node_url, bucket, scope, k - 1)
    } else {
        collection_syncs(node_url, bucket, scope, k - 1).push(
            collection_sync(node_url, bucket, scope.name, scope.collections[k - 1]),
        )
    }
}

/// The requests for a scope and its collections; the default scope is there already.
pub open spec fn scope_sync(node_url: Seq<char>, bucket: Seq<char>, scope: ScopeView) -> Seq<SyncView> {
    let own = if scope.name == "_default"@ {
        Seq::empty()
    } else {
        Seq::empty().push(
            SyncView {
                url: node_url + bucket_route(bucket, "/scopes"@),
                body: named_json(scope.name),
            },
        )
    };
    own + collection_syncs(node_url, bucket, scope, scope.collections.len() as int)
}

/// The requests for the first `k` scopes of a bucket.
pub open spec fn scope_syncs(node_url: Seq<char>, bucket: Seq<char>, scopes: Seq<ScopeView>, k: int) -> Seq<
    SyncView,
>
    decreases k,
{
    if k <= 0 {
        Seq::empty()
    } else {
        scope_syncs(node_url, bucket, scopes, k - 1) + scope_sync(node_url, bucket, scopes[k - 1])
    }
}

fn push_sync(out: &mut Vec<SyncRequest>, node_url: &str, path: &str, name: &str)
    ensures
        sync_views(final(out)@) == sync_views(old(out)@).push(
            (SyncView { url: node_url@ + path@, body: named_json(name@) }),
        ),
{
    let ghost prior = out@;
    let mut url = node_url.to_owned();
    url.append(path);
    out.push(SyncRequest { url, body: named(name) });
    assert(sync_views(out@) =~= sync_views(prior).push(
        (SyncView { url: node_url@ + path@, body: named_json(name@) }),
    ));
}

fn push_scope_sync(out: &mut Vec<SyncRequest>, node_url: &str, bucket: &str, scope: &ScopeResponse)
    ensures
        sync_views(final(out)@) == sync_views(old(out)@) + scope_sync(node_url@, bucket@, scope@),
{
    let ghost before = sync_views(out@);
    if !same_text(scope.name.as_str(), "_default") {
        let path = bucket_route_text(bucket, "/scopes");
        push_sync(out, node_url, path.as_str(), scope.name.as_str());
    }
    let ghost start = sync_views(out@);
    let path = collections_route_text(bucket, scope.name.as_str());
    let ghost names = texts(scope.collections@);
    let mut k: usize = 0;
    assert(start + collection_syncs(node_url@, bucket@, scope@, 0) =~= start);
    while k < scope.collections.len()
        invariant
            k <= scope.collections@.len(),
            names == texts(scope.collections@),
            path@ == collections_route(bucket@, scope@.name),
            sync_views(out@) == start + collection_syncs(node_url@, bucket@, scope@, k as int),
        decreases scope.collections@.len() - k,
    {
        assert(names[k as int] == scope.collections@[k as int]@);
        if !same_text(scope.collections[k].as_str(), "_default") {
            push_sync(out, node_url, path.as_str(), scope.collections[k].as_str());
        }
        k = k + 1;
        assert(sync_views(out@) =~= start + collection_syncs(
            node_url@,
            bucket@,
            scope@,
            k as int,
        ));
    }
    assert(sync_views(out@) =~= before + scope_sync(node_url@, bucket@, scope@));
}

/// The requests that create the scopes and collections of a bucket on a node that has just joined,
/// once it has the bucket.
pub fn sync_buckets_to_node(node_url: &str, bucket: &str, scopes: &Vec<ScopeResponse>) -> (r: Vec<
    SyncRequest,
>)
    ensures
        sync_views(r@) == scope_syncs(
            node_url@,
            bucket@,
            scope_views(scopes@),
            scopes@.len() as int,
        ),
{
    let ghost views = scope_views(scopes@);
    let mut out: Vec<SyncRequest> = Vec::new();
    let mut k: usize = 0;
    assert(sync_views(out@) =~= scope_syncs(node_url@, bucket@, views, 0));
    while k < scopes.len()
        invariant
            k <= scopes@.len(),
            views == scope_views(scopes@),
            sync_views(out@) == scope_syncs(node_url@, bucket@, views, k as int),
        decreases scopes@.len() - k,
    {
        assert(views[k as int] == scopes@[k as int]@);
        push_scope_sync(&mut out, node_url, bucket, &scopes[k]);
        k = k + 1;
    }
    out
}

/// The name of the state of a transfer.
pub open spec fn transfer_status_name(s: TransferStatus) -> Seq<char> {
    match s {
        TransferStatus::Pending => "Pending"@,
        TransferStatus::InProgress => "InProgress"@,
        TransferStatus::Completed => "Completed"@,
        TransferStatus::Failed => "Failed"@,
    }
}

/// A transfer as it is told.
pub open spec fn transfer_json(t: TransferView) -> JsonView {
    JsonView::object()
        .with("vbucket_id"@, number(t.vbucket_id as nat))
        .with("from_node"@, JsonView::Text(t.from_node))
        .with("to_node"@, JsonView::Text(t.to_node))
        .with("status"@, JsonView::Text(transfer_status_name(t.status)))
}

/// Transfers as they are told.
pub open spec fn transfer_list(v: Seq<VBucketTransfer>) -> Seq<JsonView> {
    Seq::new(v.len(), |i: int| transfer_json(v[i]@))
}

fn make_transfer(t: &VBucketTransfer) -> (r: Json)
    ensures
        r@ == transfer_json(t@),
{
    let status = match t.status {
        TransferStatus::Pending => "Pending",
        TransferStatus::InProgress => "InProgress",
        TransferStatus::Completed => "Completed",
        TransferStatus::Failed => "Failed",
    };
    Json::object()
        .with("vbucket_id", json_number(t.vbucket_id as u64))
        .with("from_node", json_text(t.from_node.as_str()))
        .with("to_node", json_text(t.to_node.as_str()))
        .with("status", json_text(status))
}

/// Transfers as they are told.
pub fn transfers_json(v: &Vec<VBucketTransfer>) -> (r: Json)
    ensures
        r@ == JsonView::Array(transfer_list(v@)),
{
    let mut out = Json::array();
    let mut k: usize = 0;
    assert(transfer_list(v@.take(0)) =~= Seq::<JsonView>::empty());
    while k < v.len()
        invariant
            k <= v@.len(),
            out@ == JsonView::Array(transfer_list(v@.take(k as int))),
        decreases v@.len() - k,
    {
        out = out.item(make_transfer(&v[k]));
        assert(transfer_list(v@.take(k + 1)) =~= transfer_list(v@.take(k as int)).push(
            transfer_json(v@[k as int]@),
        ));
        k = k + 1;
    }
    assert(v@.take(k as int) =~= v@);
    out
}

/// The transfers of a rebalance as they are told.
pub open spec fn rebalance_json(v: Seq<VBucketTransfer>) -> JsonView {
    JsonView::object()
        .with("transfers_needed"@, number(v.len()))
        .with("transfers"@, JsonView::Array(transfer_list(v)))
}

fn make_rebalance(v: &Vec<VBucketTransfer>) -> (r: Json)
    ensures
        r@ == rebalance_json(v@),
{
    Json::object()
        .with("transfers_needed", json_number(v.len() as u64))
        .with("transfers", transfers_json(v))
}

/// The answer when a node was taken in.
pub fn node_added(name: &str, transfers: &Vec<VBucketTransfer>) -> (r: Json)
    ensures
        r@ == ok_json(about("Node"@, name@, "added to cluster"@)).with(
            "rebalance"@,
            rebalance_json(transfers@),
        ),
{
    let message = about_text("Node", name, "added to cluster");
    ok_answer(message.as_str()).with("rebalance", make_rebalance(transfers))
}

/// The answer when a node was taken out.
pub fn node_removed(name: &str, transfers: &Vec<VBucketTransfer>) -> (r: Json)
    ensures
        r@ == ok_json(about("Node"@, name@, "removed from cluster"@)).with(
            "rebalance"@,
            rebalance_json(transfers@),
        ),
{
    let message = about_text("Node", name, "removed from cluster");
    ok_answer(message.as_str()).with("rebalance", make_rebalance(transfers))
}

/// The answer when a node was recovered.
pub fn node_recovered(name: &str, transfers: &Vec<VBucketTransfer>) -> (r: Json)
    ensures
        r@ == ok_json("Node '"@ + name@ + "' recovered, rebalance triggered"@).with(
            "rebalance"@,
            rebalance_json(transfers@),
        ),
{
    let mut message = "Node '".to_owned();
    message.append(name);
    message.append("' recovered, rebalance triggered");
    ok_answer(message.as_str()).with("rebalance", make_rebalance(transfers))
}

/// The answer when a rebalance was started.
pub fn rebalance_triggered(transfers: &Vec<VBucketTransfer>) -> (r: Json)
    ensures
        r@ == ok_json("Rebalance triggered"@)
            .with("transfers_needed"@, number(transfers@.len()))
            .with("transfers"@, JsonView::Array(transfer_list(transfers@))),
{
    ok_answer("Rebalance triggered")
        .with("transfers_needed", json_number(transfers.len() as u64))
        .with("transfers", transfers_json(transfers))
}

/// The answer when a rebalance that minds the server groups was done.
pub fn groups_rebalanced(transfers: &Vec<VBucketTransfer>) -> (r: Json)
    ensures
        r@ == ok_json("Group-aware rebalance completed"@)
            .with("transfers"@, number(transfers@.len()))
            .with("details"@, JsonView::Array(transfer_list(transfers@))),
{
    ok_answer("Group-aware rebalance completed")
        .with("transfers", json_number(transfers.len() as u64))
        .with("details", transfers_json(transfers))
}

/// The answer when the documents of a vBucket have come in.
pub fn vbucket_imported(vbucket_id: u16, bucket: &str) -> (r: Json)
    ensures
        r@ == ok_json(
            "vBucket "@ + dec(vbucket_id as nat) + " imported into bucket '"@ + bucket@ + "'"@,
        ),
{
    let mut message = "vBucket ".to_owned();
    push_dec(&mut message, vbucket_id as u64);
    message.append(" imported into bucket '");
    message.append(bucket);
    message.append("'");
    ok_answer(message.as_str())
}

/// Whether a list holds the same numbers as another, in ascending order.
pub open spec fn orders(list: Seq<u16>, numbers: Seq<u16>) -> bool {
    is_sorted(list) && list.to_multiset() == numbers.to_multiset() && list.len() == numbers.len()
}

/// What is said of the share of a node, the numbers of whose vBuckets are listed in order.
pub open spec fn share_json(info: NodePartitionInfo, list: Seq<u16>) -> JsonView {
    JsonView::object()
        .with("node_name"@, JsonView::Text(info.node_name@))
        .with("active_count"@, number(info.active_count as nat))
        .with("replica_count"@, number(info.replica_count as nat))
        .with("active_vbucket_range"@, JsonView::Text(ranges_text(list)))
}

/// What is said of the share of a node: the owned vBuckets as ranges.
pub fn partition_share(info: &NodePartitionInfo) -> (r: Json)
    ensures
        exists|list: Seq<u16>| #[trigger]
            orders(list, info.active_vbuckets@) && r@ == share_json(*info, list),
{
    let ranges = format_vbucket_ranges(info.active_vbuckets.as_slice());
    let ghost list = choose|list: Seq<u16>| #[trigger]
        is_sorted(list) && list.to_multiset() == info.active_vbuckets@.to_multiset() && list.len()
            == info.active_vbuckets@.len() && ranges@ == ranges_text(list);
    let r = Json::object()
        .with("node_name", json_text(info.node_name.as_str()))
        .with("active_count", json_number(info.active_count as u64))
        .with("replica_count", json_number(info.replica_count as u64))
        .with("active_vbucket_range", json_text(ranges.as_str()));
    assert(is_sorted(list));
    assert(orders(list, info.active_vbuckets@));
    r
}

/// Numbers as they are told.
pub open spec fn number_items(v: Seq<u16>) -> Seq<JsonView> {
    Seq::new(v.len(), |i: int| number(v[i] as nat))
}

fn make_numbers(v: &Vec<u16>) -> (r: Json)
    ensures
        r@ == JsonView::Array(number_items(v@)),
{
    let mut out = Json::array();
    let mut k: usize = 0;
    assert(number_items(v@.take(0)) =~= Seq::<JsonView>::empty());
    while k < v.len()
        invariant
            k <= v@.len(),
            out@ == JsonView::Array(number_items(v@.take(k as int))),
        decreases v@.len() - k,
    {
        out = out.item(json_number(v[k] as u64));
        assert(number_items(v@.take(k + 1)) =~= number_items(v@.take(k as int)).push(
            number(v@[k as int] as nat),
        ));
        k = k + 1;
    }
    assert(v@.take(k as int) =~= v@);
    out
}

/// The vBuckets of a node as they are told.
pub open spec fn info_json(info: NodePartitionInfo) -> JsonView {
    JsonView::object()
        .with("node_name"@, JsonView::Text(info.node_name@))
        .with("active_vbuckets"@, JsonView::Array(number_items(info.active_vbuckets@)))
        .with("replica_vbuckets"@, JsonView::Array(number_items(info.replica_vbuckets@)))
        .with("active_count"@, number(info.active_count as nat))
        .with("replica_count"@, number(info.replica_count as nat))
}

/// The vBuckets of nodes as they are told.
pub open spec fn info_items(v: Seq<NodePartitionInfo>) -> Seq<JsonView> {
    Seq::new(v.len(), |i: int| info_json(v[i]))
}

fn make_infos(v: &Vec<NodePartitionInfo>) -> (r: Json)
    ensures
        r@ == JsonView::Array(info_items(v@)),
{
    let mut out = Json::array();
    let mut k: usize = 0;
    assert(info_items(v@.take(0)) =~= Seq::<JsonView>::empty());
    while k < v.len()
        invariant
            k <= v@.len(),
            out@ == JsonView::Array(info_items(v@.take(k as int))),
        decreases v@.len() - k,
    {
        let info = &v[k];
        let item = Json::object()
            .with("node_name", json_text(info.node_name.as_str()))
            .with("active_vbuckets", make_numbers(&info.active_vbuckets))
            .with("replica_vbuckets", make_numbers(&info.replica_vbuckets))
            .with("active_count", json_number(info.active_count as u64))
            .with("replica_count", json_number(info.replica_count as u64));
        out = out.item(item);
        assert(info_items(v@.take(k + 1)) =~= info_items(v@.take(k as int)).push(
            info_json(v@[k as int]),
        ));
        k = k + 1;
    }
    assert(v@.take(k as int) =~= v@);
    out
}

/// The owner and the replicas of a vBucket as they are told.
pub open spec fn owner_json(o: OwnershipView) -> JsonView {
    JsonView::object()
        .with("active_node"@, JsonView::Text(o.active))
        .with("replica_nodes"@, JsonView::Array(text_items(o.replicas)))
}

/// The owners and replicas of vBuckets as they are told.
pub open spec fn owner_items(v: Seq<VBucketOwnership>) -> Seq<JsonView> {
    Seq::new(v.len(), |i: int| owner_json(v[i]@))
}

fn make_owners(v: &Vec<VBucketOwnership>) -> (r: Json)
    ensures
        r@ == JsonView::Array(owner_items(v@)),
{
    let mut out = Json::array();
    let mut k: usize = 0;
    assert(owner_items(v@.take(0)) =~= Seq::<JsonView>::empty());
    while k < v.len()
        invariant
            k <= v@.len(),
            out@ == JsonView::Array(owner_items(v@.take(k as int))),
        decreases v@.len() - k,
    {
        let item = Json::object()
            .with("active_node", json_text(v[k].active_node.as_str()))
            .with("replica_nodes", json_texts(&v[k].replica_nodes));
        out = out.item(item);
        assert(owner_items(v@.take(k + 1)) =~= owner_items(v@.take(k as int)).push(
            owner_json(v@[k as int]@),
        ));
        k = k + 1;
    }
    assert(v@.take(k as int) =~= v@);
    out
}

/// The answer to a request for the partition map.
pub fn get_partition_map(map: &PartitionMap, nodes: &Vec<NodePartitionInfo>) -> (r: Json)
    ensures
        r@ == JsonView::object()
            .with("revision"@, number(map.revision as nat))
            .with("num_vbuckets"@, number(map.num_vbuckets as nat))
            .with("num_replicas"@, number(map.num_replicas as nat))
            .with("nodes"@, JsonView::Array(info_items(nodes@)))
            .with("map"@, JsonView::Array(owner_items(map.map@))),
{
    Json::object()
        .with("revision", json_number(map.revision))
        .with("num_vbuckets", json_number(map.num_vbuckets as u64))
        .with("num_replicas", json_number(map.num_replicas as u64))
        .with("nodes", make_infos(nodes))
        .with("map", make_owners(&map.map))
}

/// The progress of a rebalance as it is told; the share that is done is a number in JSON notation.
pub open spec fn progress_json(s: RebalanceStatus, percent: Seq<char>) -> JsonView {
    JsonView::object()
        .with("in_progress"@, JsonView::Bool(s.in_progress))
        .with("progress_percent"@, JsonView::Number(percent))
        .with("transfers_total"@, number(s.transfers_total as nat))
        .with("transfers_completed"@, number(s.transfers_completed as nat))
        .with("source_map_revision"@, number(s.source_map_revision as nat))
        .with("target_map_revision"@, number(s.target_map_revision as nat))
}

fn make_progress(s: &RebalanceStatus, percent: &str) -> (r: Json)
    ensures
        r@ == progress_json(*s, percent@),
{
    Json::object()
        .with("in_progress", Json::Bool(s.in_progress))
        .with("progress_percent", Json::Number(percent.to_owned()))
        .with("transfers_total", json_number(s.transfers_total as u64))
        .with("transfers_completed", json_number(s.transfers_completed as u64))
        .with("source_map_revision", json_number(s.source_map_revision))
        .with("target_map_revision", json_number(s.target_map_revision))
}

/// The answer to a request for the progress of a rebalance, with the share that is done in percent.
pub fn get_rebalance_status(
    status: &RebalanceStatus,
    percent: &str,
    pending: &Vec<VBucketTransfer>,
) -> (r: Json)
    ensures
        r@ == JsonView::object()
            .with("status"@, progress_json(*status, percent@))
            .with("pending_transfers"@, JsonView::Array(transfer_list(pending@))),
{
    Json::object()
        .with("status", make_progress(status, percent))
        .with("pending_transfers", transfers_json(pending))
}

/// What is said of the shares of nodes, the numbers of whose vBuckets are listed in order.
pub open spec fn share_items(v: Seq<NodePartitionInfo>, lists: Seq<Seq<u16>>) -> Seq<JsonView> {
    Seq::new(v.len(), |i: int| share_json(v[i], lists[i]))
}

/// Whether lists hold the numbers of the vBuckets of nodes in order.
pub open spec fn orders_all(lists: Seq<Seq<u16>>, v: Seq<NodePartitionInfo>) -> bool {
    lists.len() == v.len() && forall|i: int|
        0 <= i < v.len() ==> orders(#[trigger] lists[i], v[i].active_vbuckets@)
}

fn make_shares(v: &Vec<NodePartitionInfo>) -> (r: Json)
    ensures
        exists|lists: Seq<Seq<u16>>| #[trigger]
            orders_all(lists, v@) && r@ == JsonView::Array(share_items(v@, lists)),
{
    let mut out = Json::array();
    let ghost mut lists = Seq::<Seq<u16>>::empty();
    let mut k: usize = 0;
    assert(share_items(v@.take(0), lists) =~= Seq::<JsonView>::empty());
    while k < v.len()
        invariant
            k <= v@.len(),
            orders_all(lists, v@.take(k as int)),
            out@ == JsonView::Array(share_items(v@.take(k as int), lists)),
        decreases v@.len() - k,
    {
        let share = partition_share(&v[k]);
        let ghost before = lists;
        proof {
            let list = choose|list: Seq<u16>| #[trigger]
                orders(list, v@[k as int].active_vbuckets@) && share@ == share_json(
                    v@[k as int],
                    list,
                );
            lists = lists.push(list);
        }
        out = out.item(share);
        assert(share_items(v@.take(k + 1), lists) =~= share_items(v@.take(k as int), before).push(
            share@,
        ));
        k = k + 1;
    }
    assert(v@.take(k as int) =~= v@);
    out
}

/// The answer to a request for a summary of the partition map: the shares of the nodes, and the
/// progress of the rebalance with the share that is done in percent.
pub fn get_partition_summary(
    map: &PartitionMap,
    nodes: &Vec<NodePartitionInfo>,
    status: &RebalanceStatus,
    percent: &str,
) -> (r: Json)
    ensures
        exists|lists: Seq<Seq<u16>>| #[trigger]
            orders_all(lists, nodes@) && r@ == JsonView::object()
                .with("revision"@, number(map.revision as nat))
                .with("num_vbuckets"@, number(map.num_vbuckets as nat))
                .with("rebalance_status"@, progress_json(*status, percent@))
                .with("nodes"@, JsonView::Array(share_items(nodes@, lists))),
{
    let shares = make_shares(nodes);
    let ghost lists = choose|lists: Seq<Seq<u16>>| #[trigger]
        orders_all(lists, nodes@) && shares@ == JsonView::Array(share_items(nodes@, lists));
    let r = Json::object()
        .with("revision", json_number(map.revision))
        .with("num_vbuckets", json_number(map.num_vbuckets as u64))
        .with("rebalance_status", make_progress(status, percent))
        .with("nodes", shares);
    assert(orders_all(lists, nodes@));
    r
}

/// The answer when the counter of automatic failovers was reset.
pub fn quota_reset() -> (r: Json)
    ensures
        r@ == ok_json("Auto-failover quota reset"@),
{
    ok_answer("Auto-failover quota reset")
}

/// The settings of automatic failover as they are told.
pub open spec fn failover_config_json(c: FailoverConfig) -> JsonView {
    JsonView::object()
        .with("enabled"@, JsonView::Bool(c.enabled))
        .with("timeout_secs"@, number(c.timeout_secs as nat))
        .with("max_count"@, number(c.max_count as nat))
        .with("failover_on_data_loss"@, JsonView::Bool(c.failover_on_data_loss))
        .with("min_cluster_size"@, number(c.min_cluster_size as nat))
        .with("cooldown_secs"@, number(c.cooldown_secs as nat))
}

/// The answer when automatic failover has new settings.
pub fn failover_config_updated(c: &FailoverConfig) -> (r: Json)
    ensures
        r@ == ok_json("Failover configuration updated"@).with(
            "config"@,
            failover_config_json(*c),
        ),
{
    let config = Json::object()
        .with("enabled", Json::Bool(c.enabled))
        .with("timeout_secs", json_number(c.timeout_secs))
        .with("max_count", json_number(c.max_count as u64))
        .with("failover_on_data_loss", Json::Bool(c.failover_on_data_loss))
        .with("min_cluster_size", json_number(c.min_cluster_size as u64))
        .with("cooldown_secs", json_number(c.cooldown_secs));
    ok_answer("Failover configuration updated").with("config", config)
}

/// The answer when a node was failed over, with what is told of the failover.
pub fn node_failed_over(name: &str, event: Json) -> (r: Json)
    ensures
        r@ == ok_json(about("Node"@, name@, "failed over successfully"@)).with("event"@, event@),
{
    let message = about_text("Node", name, "failed over successfully");
    ok_answer(message.as_str()).with("event", event)
}

/// A server group as it is told.
pub open spec fn group_json(g: GroupView) -> JsonView {
    JsonView::object()
        .with("name"@, JsonView::Text(g.name))
        .with("uuid"@, JsonView::Text(g.uuid))
        .with("nodes"@, JsonView::Array(text_items(g.nodes)))
}

fn make_group(g: &ServerGroup) -> (r: Json)
    ensures
        r@ == group_json(g@),
{
    Json::object()
        .with("name", json_text(g.name.as_str()))
        .with("uuid", json_text(g.uuid.as_str()))
        .with("nodes", json_texts(&g.nodes))
}

/// Server groups as they are told.
pub open spec fn group_items(v: Seq<ServerGroup>) -> Seq<JsonView> {
    Seq::new(v.len(), |i: int| group_json(v[i]@))
}

/// The answer to a request for the server groups.
pub fn list_server_groups(groups: &Vec<ServerGroup>) -> (r: Json)
    ensures
        r@ == JsonView::object().with("groups"@, JsonView::Array(group_items(groups@))),
{
    let mut out = Json::array();
    let mut k: usize = 0;
    assert(group_items(groups@.take(0)) =~= Seq::<JsonView>::empty());
    while k < groups.len()
        invariant
            k <= groups@.len(),
            out@ == JsonView::Array(group_items(groups@.take(k as int))),
        decreases groups@.len() - k,
    {
        out = out.item(make_group(&groups[k]));
        assert(group_items(groups@.take(k + 1)) =~= group_items(groups@.take(k as int)).push(
            group_json(groups@[k as int]@),
        ));
        k = k + 1;
    }
    assert(groups@.take(k as int) =~= groups@);
    Json::object().with("groups", out)
}

/// The answer when a server group was created.
pub fn server_group_created(name: &str, group: &ServerGroup) -> (r: Json)
    ensures
        r@ == ok_json(about("Server group"@, name@, "created"@)).with(
            "group"@,
            group_json(group@),
        ),
{
    let message = about_text("Server group", name, "created");
    ok_answer(message.as_str()).with("group", make_group(group))
}

/// The answer when a node was moved to a server group.
pub fn node_moved(req: &MoveNodeToGroupRequest) -> (r: Json)
    ensures
        r@ == ok_json(
            about("Node"@, req.node_name@, "moved to group '"@) + req.group_name@ + "'"@,
        ),
{
    let mut message = about_text("Node", req.node_name.as_str(), "moved to group '");
    message.append(req.group_name.as_str());
    message.append("'");
    ok_answer(message.as_str())
}

/// The answer when a server group was deleted.
pub fn server_group_deleted(name: &str) -> (r: Json)
    ensures
        r@ == ok_json(about("Server group"@, name@, "deleted"@)),
{
    let message = about_text("Server group", name, "deleted");
    ok_answer(message.as_str())
}

// ---- Laws ----

/// A failover is hard exactly where the request says so, and the reason tells which it was.
pub proof fn law_failovers_are_as_asked(req: FailoverRequest)
    ensures
        requested_failover(req) == FailoverType::Hard <==> req.failover_type@ == "hard"@,
        requested_failover(req) == FailoverType::Graceful <==> req.failover_type@ != "hard"@,
        failover_reason(FailoverType::Hard) == "Hard failover initiated by operator"@,
        failover_reason(FailoverType::Graceful) == "Graceful failover initiated by operator"@,
{
}

/// Between two ranges of ascending numbers lies a gap: numbers that follow each other stand in one
/// range.
pub proof fn law_ranges_lie_apart(v: Seq<u16>, k: int, i: int)
    requires
        0 <= k <= v.len(),
        forall|a: int, b: int| 0 <= a < b < v.len() ==> v[a] < v[b],
        0 <= i,
        i + 1 < ranges_of(v, k).len(),
    ensures
        ranges_of(v, k)[i].1 + 1 < ranges_of(v, k)[i + 1].0,
    decreases k,
{
    if k > 0 {
        let rest = ranges_of(v, k - 1);
        lemma_last_of_range(v, k - 1);
        if i + 1 < rest.len() {
            law_ranges_lie_apart(v, k - 1, i);
        }
    }
}

proof fn lemma_last_of_range(v: Seq<u16>, k: int)
    requires
        0 <= k <= v.len(),
    ensures
        k > 0 ==> ranges_of(v, k).len() > 0 && ranges_of(v, k).last().1 == v[k - 1],
        k == 0 ==> ranges_of(v, k).len() == 0,
    decreases k,
{
    if k > 0 {
        lemma_last_of_range(v, k - 1);
    }
}

/// A range is written with its ends and a hyphen between them, a single number alone; without
/// numbers there is a word.
pub proof fn law_ranges_are_written_with_their_ends(first: u16, last: u16, v: Seq<u16>)
    ensures
        range_text((first as int, first as int)) == dec(first as nat),
        first != last ==> range_text((first as int, last as int)) == dec(first as nat) + "-"@ + dec(
            last as nat,
        ),
        v.len() == 0 ==> ranges_text(v) == "none"@,
        v.len() > 0 && ranges_of(v, v.len() as int) == seq![(first as int, last as int)]
            ==> ranges_text(v) == range_text((first as int, last as int)),
{
    let one = seq![(first as int, last as int)];
    let parts = range_texts(one);
    assert(parts =~= seq![range_text((first as int, last as int))]);
    reveal_with_fuel(join, 2);
}

/// A node that has just joined is sent every scope and every collection of a bucket, except those
/// that it has from the start.
pub proof fn law_new_nodes_get_the_collections(
    url: Seq<char>,
    bucket: Seq<char>,
    scope: ScopeView,
    i: int,
)
    ensures
        ({
            let wanted = scope.collections.filter(|c: Seq<char>| c != "_default"@);
            let sent = scope_sync(url, bucket, scope);
            let first: int = if scope.name == "_default"@ {
                0
            } else {
                1
            };
            &&& sent.len() == first + wanted.len()
            &&& first == 1 ==> sent[0].url == url + ("/api/v1/buckets/"@ + bucket + "/scopes"@)
                && sent[0].body == JsonView::Object(seq![("name"@, JsonView::Text(scope.name))])
            &&& 0 <= i < wanted.len() ==> sent[first + i].url == url + ("/api/v1/buckets/"@ + bucket
                + "/scopes/"@ + scope.name + "/collections"@) && sent[first + i].body
                == JsonView::Object(seq![("name"@, JsonView::Text(wanted[i]))])
        }),
{
    let n = scope.collections.len() as int;
    assert(scope.collections.take(n) =~= scope.collections);
    lemma_collection_syncs(url, bucket, scope, n, i);
}

proof fn lemma_collection_syncs(
    url: Seq<char>,
    bucket: Seq<char>,
    scope: ScopeView,
    k: int,
    i: int,
)
    requires
        0 <= k <= scope.collections.len(),
    ensures
        ({
            let wanted = scope.collections.take(k).filter(|c: Seq<char>| c != "_default"@);
            let sent = collection_syncs(url, bucket, scope, k);
            &&& sent.len() == wanted.len()
            &&& 0 <= i < wanted.len() ==> sent[i].url == url + ("/api/v1/buckets/"@ + bucket
                + "/scopes/"@ + scope.name + "/collections"@) && sent[i].body == JsonView::Object(
                seq![("name"@, JsonView::Text(wanted[i]))],
            )
        }),
    decreases k,
{
    reveal(Seq::filter);
    let s = scope.collections.take(k);
    if k > 0 {
        lemma_collection_syncs(url, bucket, scope, k - 1, i);
        assert(s.drop_last() =~= scope.collections.take(k - 1));
    }
}

/// The scopes of a bucket are sent one after the other.
pub proof fn law_scopes_are_sent_in_turn(
    url: Seq<char>,
    bucket: Seq<char>,
    a: Seq<ScopeView>,
    scope: ScopeView,
)
    ensures
        scope_syncs(url, bucket, a.push(scope), a.len() as int + 1) == scope_syncs(
            url,
            bucket,
            a,
            a.len() as int,
        ) + scope_sync(url, bucket, scope),
        scope_syncs(url, bucket, a, 0) == Seq::<SyncView>::empty(),
{
    lemma_scope_syncs(url, bucket, a, a.push(scope), a.len() as int);
}

proof fn lemma_scope_syncs(
    url: Seq<char>,
    bucket: Seq<char>,
    a: Seq<ScopeView>,
    b: Seq<ScopeView>,
    k: int,
)
    requires
        k <= a.len(),
        k <= b.len(),
        forall|i: int| 0 <= i < k ==> a[i] == b[i],
    ensures
        scope_syncs(url, bucket, a, k) == scope_syncs(url, bucket, b, k),
    decreases k,
{
    if k > 0 {
        lemma_scope_syncs(url, bucket, a, b, k - 1);
    }
}

/// A bucket is made on another node as it is here.
pub proof fn law_buckets_are_made_alike(c: BucketConfigView)
    ensures
        bucket_sync_json(c) is Object && bucket_sync_json(c)->Object_0 =~= seq![
            ("name"@, JsonView::Text(c.name)),
            (
                "bucket_type"@,
                JsonView::Text(
                    match c.bucket_type {
                        BucketType::Couchbase => "couchbase"@,
                        BucketType::Ephemeral => "ephemeral"@,
                        BucketType::Memcached => "memcached"@,
                    },
                ),
            ),
            ("ram_quota_mb"@, JsonView::Number(dec(c.ram_quota_mb as nat))),
            ("num_replicas"@, JsonView::Number(dec(c.num_replicas as nat))),
            ("flush_enabled"@, JsonView::Bool(c.flush_enabled)),
            (
                "conflict_resolution"@,
                JsonView::Text(
                    match c.conflict_resolution {
                        ConflictResolutionType::SequenceNumber => "sequencenumber"@,
                        ConflictResolutionType::Timestamp => "timestamp"@,
                    },
                ),
            ),
        ],
        bucket_type_of(bucket_type_word(c.bucket_type)) == Some(c.bucket_type),
        conflict_resolution_of(conflict_resolution_word(c.conflict_resolution)) == Some(
            c.conflict_resolution,
        ),
{
    law_words_name_their_kind(bucket_type_word(c.bucket_type));
    law_words_name_their_kind(conflict_resolution_word(c.conflict_resolution));
}

/// What is told about the cluster: each value under its own name.
pub proof fn law_parts_stand_under_their_names(
    t: TransferView,
    info: NodePartitionInfo,
    list: Seq<u16>,
    o: OwnershipView,
    s: RebalanceStatus,
    percent: Seq<char>,
    c: FailoverConfig,
    g: GroupView,
    v: Seq<VBucketTransfer>,
)
    ensures
        transfer_json(t) is Object && transfer_json(t)->Object_0 =~= seq![
            ("vbucket_id"@, JsonView::Number(dec(t.vbucket_id as nat))),
            ("from_node"@, JsonView::Text(t.from_node)),
            ("to_node"@, JsonView::Text(t.to_node)),
            (
                "status"@,
                JsonView::Text(
                    match t.status {
                        TransferStatus::Pending => "Pending"@,
                        TransferStatus::InProgress => "InProgress"@,
                        TransferStatus::Completed => "Completed"@,
                        TransferStatus::Failed => "Failed"@,
                    },
                ),
            ),
        ],
        share_json(info, list) is Object && share_json(info, list)->Object_0 =~= seq![
            ("node_name"@, JsonView::Text(info.node_name@)),
            ("active_count"@, JsonView::Number(dec(info.active_count as nat))),
            ("replica_count"@, JsonView::Number(dec(info.replica_count as nat))),
            ("active_vbucket_range"@, JsonView::Text(ranges_text(list))),
        ],
        info_json(info) is Object && info_json(info)->Object_0 =~= seq![
            ("node_name"@, JsonView::Text(info.node_name@)),
            ("active_vbuckets"@, JsonView::Array(number_items(info.active_vbuckets@))),
            ("replica_vbuckets"@, JsonView::Array(number_items(info.replica_vbuckets@))),
            ("active_count"@, JsonView::Number(dec(info.active_count as nat))),
            ("replica_count"@, JsonView::Number(dec(info.replica_count as nat))),
        ],
        owner_json(o) is Object && owner_json(o)->Object_0 =~= seq![
            ("active_node"@, JsonView::Text(o.active)),
            ("replica_nodes"@, JsonView::Array(text_items(o.replicas))),
        ],
        progress_json(s, percent) is Object && progress_json(s, percent)->Object_0 =~= seq![
            ("in_progress"@, JsonView::Bool(s.in_progress)),
            ("progress_percent"@, JsonView::Number(percent)),
            ("transfers_total"@, JsonView::Number(dec(s.transfers_total as nat))),
            ("transfers_completed"@, JsonView::Number(dec(s.transfers_completed as nat))),
            ("source_map_revision"@, JsonView::Number(dec(s.source_map_revision as nat))),
            ("target_map_revision"@, JsonView::Number(dec(s.target_map_revision as nat))),
        ],
        failover_config_json(c) is Object && failover_config_json(c)->Object_0 =~= seq![
            ("enabled"@, JsonView::Bool(c.enabled)),
            ("timeout_secs"@, JsonView::Number(dec(c.timeout_secs as nat))),
            ("max_count"@, JsonView::Number(dec(c.max_count as nat))),
            ("failover_on_data_loss"@, JsonView::Bool(c.failover_on_data_loss)),
            ("min_cluster_size"@, JsonView::Number(dec(c.min_cluster_size as nat))),
            ("cooldown_secs"@, JsonView::Number(dec(c.cooldown_secs as nat))),
        ],
        group_json(g) is Object && group_json(g)->Object_0 =~= seq![
            ("name"@, JsonView::Text(g.name)),
            ("uuid"@, JsonView::Text(g.uuid)),
            ("nodes"@, JsonView::Array(text_items(g.nodes))),
        ],
        rebalance_json(v) is Object && rebalance_json(v)->Object_0 =~= seq![
            ("transfers_needed"@, JsonView::Number(dec(v.len()))),
            ("transfers"@, JsonView::Array(transfer_list(v))),
        ],
{
}

/// Lists are told item by item in their order.
pub proof fn law_lists_are_told_in_order(
    transfers: Seq<VBucketTransfer>,
    numbers: Seq<u16>,
    infos: Seq<NodePartitionInfo>,
    owners: Seq<VBucketOwnership>,
    groups: Seq<ServerGroup>,
    i: int,
)
    ensures
        transfer_list(transfers).len() == transfers.len(),
        0 <= i < transfers.len() ==> transfer_list(transfers)[i] == transfer_json(transfers[i]@),
        number_items(numbers).len() == numbers.len(),
        0 <= i < numbers.len() ==> number_items(numbers)[i] == JsonView::Number(dec(numbers[i] as nat)),
        info_items(infos).len() == infos.len(),
        0 <= i < infos.len() ==> info_items(infos)[i] == info_json(infos[i]),
        owner_items(owners).len() == owners.len(),
        0 <= i < owners.len() ==> owner_items(owners)[i] == owner_json(owners[i]@),
        group_items(groups).len() == groups.len(),
        0 <= i < groups.len() ==> group_items(groups)[i] == group_json(groups[i]@),
{
}

/// The vBuckets of a node are told in ascending order, all of them and no others, node by node.
pub proof fn law_shares_are_told_in_order(
    v: Seq<NodePartitionInfo>,
    lists: Seq<Seq<u16>>,
    i: int,
    a: int,
    b: int,
)
    requires
        orders_all(lists, v),
        0 <= i < v.len(),
    ensures
        share_items(v, lists).len() == v.len(),
        share_items(v, lists)[i] == share_json(v[i], lists[i]),
        lists[i].to_multiset() == v[i].active_vbuckets@.to_multiset(),
        0 <= a < b < lists[i].len() ==> lists[i][a] <= lists[i][b],
{
    assert(orders(lists[i], v[i].active_vbuckets@));
}

} // verus!
