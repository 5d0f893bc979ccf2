//! Queries over all nodes: who is asked, and how the answers are put together.

use crate::api::document_routes::{is_allowed, refusal_of};
use crate::auth::middleware::{require_permission, AuthUser};
use crate::auth::rbac::{Permission, PermissionView, RbacManager};
use crate::cluster::manager::node_views;
use crate::cluster::node::{url_of, ClusterNode, NodeStatus, NodeView};
use crate::error::{NosqlError, Result};
use crate::text::{copy_opt, dec, opt_str, opt_text, same_text, texts};
use vstd::prelude::*;
use vstd::string::*;

verus! {

/// How a query went.
#[derive(Debug)]
pub struct QueryMetrics {
    pub result_count: usize,
    pub elapsed_ms: u64,
    pub scanned_count: usize,
    pub index_used: Option<String>,
}

/// The result of a query. Each row is a JSON text.
#[derive(Debug)]
pub struct QueryResult {
    pub status: String,
    pub results: Vec<String>,
    pub metrics: QueryMetrics,
}

/// Whether a query is answered by this node alone: in a cluster of one, or for another node that
/// asks all.
pub fn runs_locally(single_node: bool, scatter_header: Option<&str>) -> (r: bool)
    ensures
        r == (single_node || opt_str(scatter_header) == Some("child"@)),
{
    single_node || match scatter_header {
        Some(v) => same_text(v, "child"),
        None => false,
    }
}

/// The places of the nodes among the first `k` that are asked: the other healthy ones.
pub open spec fn asked_among(nodes: Seq<NodeView>, own: Seq<char>, k: int) -> Seq<
    (Seq<char>, Seq<char>),
>
    decreases k,
{
    if k <= 0 {
        Seq::empty()
    } else if nodes[k - 1].name != own && nodes[k - 1].status == NodeStatus::Healthy {
        asked_among(nodes, own, k - 1).push(
            (
                nodes[k - 1].name,
                url_of(nodes[k - 1].hostname, nodes[k - 1].port) + "/api/v1/query"@,
            ),
        )
    } else {
        asked_among(nodes, own, k - 1)
    }
}

/// What a list of names and addresses stands for.
pub open spec fn place_views(v: Seq<(String, String)>) -> Seq<(Seq<char>, Seq<char>)> {
    Seq::new(v.len(), |i: int| (v[i].0@, v[i].1@))
}

/// The nodes that are asked, each with the address of the request.
pub fn nodes_to_ask(nodes: &Vec<ClusterNode>, own: &str) -> (r: Vec<(String, String)>)
    ensures
        place_views(r@) == asked_among(node_views(nodes@), own@, nodes@.len() as int),
{
    let ghost views = node_views(nodes@);
    let mut out: Vec<(String, String)> = Vec::new();
    let mut k: usize = 0;
    assert(place_views(out@) =~= asked_among(views, own@, 0));
    while k < nodes.len()
        invariant
            k <= nodes@.len(),
            views == node_views(nodes@),
            place_views(out@) == asked_among(views, own@, k as int),
        decreases nodes@.len() - k,
    {
        let ghost prior = out@;
        let node = &nodes[k];
        assert(views[k as int] == node@);
        if !same_text(node.name.as_str(), own) && node.status == NodeStatus::Healthy {
            let mut url = node.base_url();
            url.append("/api/v1/query");
            let name = node.name.clone();
            let ghost pair = (name@, url@);
            out.push((name, url));
            assert(place_views(out@) =~= place_views(prior).push(pair));
        }
        k = k + 1;
    }
    out
}

/// What a query comes to.
#[derive(Debug)]
pub enum QueryPlan {
    /// This node answers it alone.
    Local,
    /// This node and those others answer it.
    Scatter(Vec<(String, String)>),
}

/// What a query of a user comes to.
pub fn execute_query(
    user: &AuthUser,
    rbac: &RbacManager,
    scatter_header: Option<&str>,
    nodes: &Vec<ClusterNode>,
    own: &str,
) -> (r: Result<QueryPlan>)
    requires
        rbac.wf(),
    ensures
        ({
            let asked = asked_among(node_views(nodes@), own@, nodes@.len() as int);
            let alone = nodes@.len() <= 1 || opt_str(scatter_header) == Some("child"@)
                || asked.len() == 0;
            if is_allowed(*user, *rbac, PermissionView::QueryExecute) {
                match r {
                    Ok(QueryPlan::Local) => alone,
                    Ok(QueryPlan::Scatter(list)) => !alone && place_views(list@) == asked,
                    Err(_) => false,
                }
            } else {
                match r {
                    Err(NosqlError::InvalidRequest(m)) => m@ == refusal_of(
                        *user,
                        PermissionView::QueryExecute,
                    ),
                    _ => false,
                }
            }
        }),
{
    match require_permission(user, rbac, &Permission::QueryExecute) {
        Ok(_) => {},
        Err(e) => {
            return Err(NosqlError::InvalidRequest(e.message));
        },
    }
    if runs_locally(nodes.len() <= 1, scatter_header) {
        return Ok(QueryPlan::Local);
    }
    let asked = nodes_to_ask(nodes, own);
    assert(place_views(asked@).len() == asked@.len());
    if asked.len() == 0 {
        Ok(QueryPlan::Local)
    } else {
        Ok(QueryPlan::Scatter(asked))
    }
}

/// The rows of this node and, behind them, all rows of the first `k` others.
pub open spec fn gathered(local: Seq<Seq<char>>, remote: Seq<QueryResult>, k: int) -> Seq<Seq<char>>
    decreases k,
{
    if k <= 0 {
        local
    } else {
        gathered(local, remote, k - 1) + texts(remote[k - 1].results@)
    }
}

/// How many documents this node and the first `k` others have looked at.
pub open spec fn scanned(local: nat, remote: Seq<QueryResult>, k: int) -> nat
    decreases k,
{
    if k <= 0 {
        local
    } else {
        scanned(local, remote, k - 1) + remote[k - 1].metrics.scanned_count as nat
    }
}

proof fn lemma_scanned_grows(local: nat, remote: Seq<QueryResult>, a: int, b: int)
    requires
        a <= b,
    ensures
        scanned(local, remote, a) <= scanned(local, remote, b),
    decreases b - a,
{
    if a < b {
        lemma_scanned_grows(local, remote, a, b - 1);
    }
}

fn join_rows(rows: &mut Vec<String>, more: &Vec<String>)
    ensures
        texts(final(rows)@) == texts(old(rows)@) + texts(more@),
{
    let ghost before = texts(rows@);
    let ghost extra = texts(more@);
    let mut k: usize = 0;
    assert(texts(rows@) =~= before + extra.take(0));
    while k < more.len()
        invariant
            k <= more@.len(),
            extra == texts(more@),
            texts(rows@) == before + extra.take(k as int),
        decreases more@.len() - k,
    {
        let ghost prior = rows@;
        assert(extra[k as int] == more@[k as int]@);
        rows.push(more[k].clone());
        assert(texts(rows@) =~= texts(prior).push(extra[k as int]));
        assert(before + extra.take(k + 1) =~= (before + extra.take(k as int)).push(extra[k as int]));
        k = k + 1;
    }
    assert(extra.take(k as int) =~= extra);
}

/// The rows of this node and of the others that answered, as one result.
pub fn gather(local: QueryResult, remote: &Vec<QueryResult>, elapsed_ms: u64) -> (r: QueryResult)
    requires
        scanned(
            local.metrics.scanned_count as nat,
            remote@,
            remote@.len() as int,
        ) <= usize::MAX,
    ensures
        r.status@ == "success"@,
        texts(r.results@) == gathered(texts(local.results@), remote@, remote@.len() as int),
        r.metrics.result_count == r.results@.len(),
        r.metrics.elapsed_ms == elapsed_ms,
        r.metrics.scanned_count == scanned(
            local.metrics.scanned_count as nat,
            remote@,
            remote@.len() as int,
        ),
        opt_text(r.metrics.index_used) == opt_text(local.metrics.index_used),
{
    let ghost own = texts(local.results@);
    let ghost first = local.metrics.scanned_count as nat;
    let index_used = copy_opt(&local.metrics.index_used);
    let mut total: usize = local.metrics.scanned_count;
    let mut rows = local.results;
    let mut k: usize = 0;
    while k < remote.len()
        invariant
            k <= remote@.len(),
            texts(rows@) == gathered(own, remote@, k as int),
            total == scanned(first, remote@, k as int),
            scanned(first, remote@, remote@.len() as int) <= usize::MAX,
        decreases remote@.len() - k,
    {
        proof {
            lemma_scanned_grows(first, remote@, k + 1, remote@.len() as int);
        }
        join_rows(&mut rows, &remote[k].results);
        total = total + remote[k].metrics.scanned_count;
        k = k + 1;
    }
    let result_count: usize = rows.len();
    QueryResult {
        status: "success".to_owned(),
        results: rows,
        metrics: QueryMetrics { result_count, elapsed_ms, scanned_count: total, index_used },
    }
}

/// How many rows this node and the first `k` others have found.
pub open spec fn found(local: nat, remote: Seq<QueryResult>, k: int) -> nat
    decreases k,
{
    if k <= 0 {
        local
    } else {
        found(local, remote, k - 1) + remote[k - 1].results@.len()
    }
}

/// No row is lost: the rows of this node stand first in the result, all of them, and there are as
/// many rows as all nodes have found.
pub proof fn law_no_row_is_lost(local: Seq<Seq<char>>, remote: Seq<QueryResult>, k: int)
    requires
        0 <= k <= remote.len(),
    ensures
        gathered(local, remote, k).len() == found(local.len(), remote, k),
        gathered(local, remote, k).len() >= local.len(),
        gathered(local, remote, k).take(local.len() as int) == local,
    decreases k,
{
    if k > 0 {
        law_no_row_is_lost(local, remote, k - 1);
        let rest = gathered(local, remote, k - 1);
        assert(gathered(local, remote, k).take(local.len() as int) =~= rest.take(
            local.len() as int,
        ));
    } else {
        assert(local.take(local.len() as int) =~= local);
    }
}

// ---- Laws ----

/// The nodes that are asked are the other healthy ones, in their order, at their query address.
pub proof fn law_healthy_nodes_are_asked(nodes: Seq<NodeView>, own: Seq<char>, i: int)
    ensures
        ({
            let healthy = nodes.filter(
                |n: NodeView| n.name != own && n.status == NodeStatus::Healthy,
            );
            let asked = asked_among(nodes, own, nodes.len() as int);
            &&& asked.len() == healthy.len()
            &&& 0 <= i < healthy.len() ==> asked[i].0 == healthy[i].name && asked[i].1 == "http://"@
                + healthy[i].hostname + ":"@ + dec(healthy[i].port as nat) + "/api/v1/query"@
        }),
{
    assert(nodes.take(nodes.len() as int) =~= nodes);
    lemma_asked(nodes, own, nodes.len() as int, i);
}

proof fn lemma_asked(nodes: Seq<NodeView>, own: Seq<char>, k: int, i: int)
    requires
        0 <= k <= nodes.len(),
    ensures
        ({
            let healthy = nodes.take(k).filter(
                |n: NodeView| n.name != own && n.status == NodeStatus::Healthy,
            );
            let asked = asked_among(nodes, own, k);
            &&& asked.len() == healthy.len()
            &&& 0 <= i < healthy.len() ==> asked[i].0 == healthy[i].name && asked[i].1 == "http://"@
                + healthy[i].hostname + ":"@ + dec(healthy[i].port as nat) + "/api/v1/query"@
        }),
    decreases k,
{
    reveal(Seq::filter);
    let s = nodes.take(k);
    if k > 0 {
        lemma_asked(nodes, own, k - 1, i);
        assert(s.drop_last() =~= nodes.take(k - 1));
    }
}

/// The result is made of the rows of this node and, behind them, of those of the others in their
/// order; what all of them looked at is added up.
pub proof fn law_rows_stand_in_the_order_of_nodes(
    local: Seq<Seq<char>>,
    looked_at: nat,
    a: Seq<QueryResult>,
    last: QueryResult,
)
    ensures
        gathered(local, a, 0) == local,
        gathered(local, a.push(last), a.len() as int + 1) == gathered(local, a, a.len() as int)
            + texts(last.results@),
        scanned(looked_at, a.push(last), a.len() as int + 1) == scanned(
            looked_at,
            a,
            a.len() as int,
        ) + last.metrics.scanned_count,
        scanned(looked_at, a, a.len() as int) == a.fold_left(
            looked_at,
            |sum: nat, r: QueryResult| sum + r.metrics.scanned_count as nat,
        ),
{
    let b = a.push(last);
    lemma_gathered(local, looked_at, a, b, a.len() as int);
    assert(a.take(a.len() as int) =~= a);
    lemma_scanned(looked_at, a, a.len() as int);
}

proof fn lemma_gathered(
    local: Seq<Seq<char>>,
    looked_at: nat,
    a: Seq<QueryResult>,
    b: Seq<QueryResult>,
    k: int,
)
    requires
        k <= a.len(),
        k <= b.len(),
        forall|i: int| 0 <= i < k ==> a[i] == b[i],
    ensures
        gathered(local, a, k) == gathered(local, b, k),
        scanned(looked_at, a, k) == scanned(looked_at, b, k),
    decreases k,
{
    if k > 0 {
        lemma_gathered(local, looked_at, a, b, k - 1);
    }
}

proof fn lemma_scanned(looked_at: nat, a: Seq<QueryResult>, k: int)
    requires
        0 <= k <= a.len(),
    ensures
        scanned(looked_at, a, k) == a.take(k).fold_left(
            looked_at,
            |sum: nat, r: QueryResult| sum + r.metrics.scanned_count as nat,
        ),
    decreases k,
{
    let s = a.take(k);
    if k > 0 {
        lemma_scanned(looked_at, a, k - 1);
        assert(s.drop_last() =~= a.take(k - 1));
    }
}

} // verus!
