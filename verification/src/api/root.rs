//! What the server says of itself.

use crate::clock::{rfc3339, rfc3339_of, utc_now};
use crate::json::{json_text, Json, JsonView};
use vstd::prelude::*;

verus! {

/// What the server is and what it offers.
pub open spec fn root_json() -> JsonView {
    JsonView::object()
        .with("name"@, JsonView::Text("OxideDB"@))
        .with("version"@, JsonView::Text("0.5.0"@))
        .with("description"@, JsonView::Text("Couchbase-like NoSQL DB with XDCR, B+ tree storage, secondary indexes, FTS"@))
        .with("storage_format"@, JsonView::Text("B+ Tree (4KB pages, binary)"@))
        .with("wal"@, JsonView::Text("Buffered WAL with dual-trigger flush (ops/bytes/interval)"@))
        .with("indexes"@, JsonView::Text("GSI-like secondary indexes with composite key support"@))
        .with("endpoints"@, JsonView::object()
            .with("buckets"@, JsonView::Text("/api/v1/buckets"@))
            .with("documents"@, JsonView::Text("/api/v1/docs/{bucket}/scopes/{scope}/collections/{collection}/docs/{key}"@))
            .with("indexes"@, JsonView::Text("/api/v1/indexes"@))
            .with("xdcr"@, JsonView::Text("/api/v1/xdcr"@))
            .with("cluster"@, JsonView::Text("/api/v1/cluster"@))
            .with("partitions"@, JsonView::Text("/api/v1/cluster/partitions"@))
            .with("rebalance"@, JsonView::Text("/api/v1/cluster/rebalance"@))
            .with("query"@, JsonView::Text("/api/v1/query"@))
            .with("fts"@, JsonView::Text("/api/v1/fts"@))
            .with("dcp"@, JsonView::Text("/api/v1/dcp"@))
            .with("audit"@, JsonView::Text("/api/v1/audit"@))
            .with("rbac"@, JsonView::Text("/api/v1/rbac"@))
            .with("backups"@, JsonView::Text("/api/v1/backups"@))
            .with("transactions"@, JsonView::Text("/api/v1/transactions"@))
            .with("persistence"@, JsonView::Text("/api/v1/persistence/stats"@))
            .with("replication"@, JsonView::Text("/api/v1/internal/replication/status"@))
            .with("orchestrator"@, JsonView::Text("/api/v1/internal/orchestrator"@))
            .with("chronicle"@, JsonView::Text("/api/v1/internal/chronicle"@))
            .with("chronicle_log"@, JsonView::Text("/api/v1/internal/chronicle/log"@))
            .with("server_groups"@, JsonView::Text("/api/v1/cluster/server-groups"@))
            .with("rebalance_groups"@, JsonView::Text("/api/v1/cluster/rebalance-groups"@))
            .with("health"@, JsonView::Text("/health"@))
            .with("ui"@, JsonView::Text("/ui"@)))
}

/// What the server is and what it offers.
pub fn root_handler() -> (r: Json)
    ensures
        r@ == root_json(),
{
    Json::object()
        .with("name", json_text("OxideDB"))
        .with("version", json_text("0.5.0"))
        .with("description", json_text("Couchbase-like NoSQL DB with XDCR, B+ tree storage, secondary indexes, FTS"))
        .with("storage_format", json_text("B+ Tree (4KB pages, binary)"))
        .with("wal", json_text("Buffered WAL with dual-trigger flush (ops/bytes/interval)"))
        .with("indexes", json_text("GSI-like secondary indexes with composite key support"))
        .with("endpoints", Json::object()
            .with("buckets", json_text("/api/v1/buckets"))
            .with("documents", json_text("/api/v1/docs/{bucket}/scopes/{scope}/collections/{collection}/docs/{key}"))
            .with("indexes", json_text("/api/v1/indexes"))
            .with("xdcr", json_text("/api/v1/xdcr"))
            .with("cluster", json_text("/api/v1/cluster"))
            .with("partitions", json_text("/api/v1/cluster/partitions"))
            .with("rebalance", json_text("/api/v1/cluster/rebalance"))
            .with("query", json_text("/api/v1/query"))
            .with("fts", json_text("/api/v1/fts"))
            .with("dcp", json_text("/api/v1/dcp"))
            .with("audit", json_text("/api/v1/audit"))
            .with("rbac", json_text("/api/v1/rbac"))
            .with("backups", json_text("/api/v1/backups"))
            .with("transactions", json_text("/api/v1/transactions"))
            .with("persistence", json_text("/api/v1/persistence/stats"))
            .with("replication", json_text("/api/v1/internal/replication/status"))
            .with("orchestrator", json_text("/api/v1/internal/orchestrator"))
            .with("chronicle", json_text("/api/v1/internal/chronicle"))
            .with("chronicle_log", json_text("/api/v1/internal/chronicle/log"))
            .with("server_groups", json_text("/api/v1/cluster/server-groups"))
            .with("rebalance_groups", json_text("/api/v1/cluster/rebalance-groups"))
            .with("health", json_text("/health"))
            .with("ui", json_text("/ui")))
}

/// That the server is alive at a given time.
pub open spec fn health_json(now: i128) -> JsonView {
    JsonView::object()
        .with("status"@, JsonView::Text("ok"@))
        .with("timestamp"@, JsonView::Text(rfc3339_of(now)))
}

/// That the server is alive at a given time.
pub fn health_check_at(now: i128) -> (r: Json)
    ensures
        r@ == health_json(now),
{
    Json::object()
        .with("status", json_text("ok"))
        .with("timestamp", json_text(rfc3339(now).as_str()))
}

/// That the server is alive.
pub fn health_check() -> (r: Json)
    ensures
        exists|now: i128| r@ == #[trigger] health_json(now),
{
    let now: i128 = utc_now();
    health_check_at(now)
}

// ---- Laws ----

/// A server that is alive says so, and which time it is.
pub proof fn law_health_tells_the_time(now: i128)
    ensures
        health_json(now) is Object && health_json(now)->Object_0 =~= seq![
            ("status"@, JsonView::Text("ok"@)),
            ("timestamp"@, JsonView::Text(rfc3339_of(now))),
        ],
{
}

} // verus!
