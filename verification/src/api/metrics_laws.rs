//! What the metrics tell: every value stands in its line, under its name and its labels.

use crate::api::metrics::{
    all_btree_lines, all_bucket_lines, all_fts_lines, all_index_lines, all_node_lines,
    all_stream_lines, all_wal_file_lines, all_xdcr_lines, btree_lines, bucket_lines,
    buckets_section, cluster_section, dcp_section, escaped, fts_lines, fts_section, index_lines,
    index_section, label_char, labels_text, line_text, lines_text, metrics_lines, node_lines,
    other_section, server_section, stream_lines, wal_file_lines, wal_section, xdcr_lines,
    xdcr_section, LineView, MetricsSnapshot, WalMetrics,
};
use crate::cluster::manager::status_name;
use crate::cluster::node::NodeStatus;
use crate::text::dec;
use vstd::prelude::*;
use vstd::string::*;

verus! {

/// A value with its name and its labels.
pub open spec fn sample(name: Seq<char>, labels: Seq<(Seq<char>, Seq<char>)>, value: nat) -> LineView {
    LineView::Sample { name, labels, value: dec(value) }
}

proof fn lemma_either<A>(a: Seq<A>, b: Seq<A>, x: A)
    ensures
        a.contains(x) ==> (a + b).contains(x),
        b.contains(x) ==> (a + b).contains(x),
{
    if a.contains(x) {
        let i = choose|i: int| 0 <= i < a.len() && a[i] == x;
        assert((a + b)[i] == x);
    }
    if b.contains(x) {
        let i = choose|i: int| 0 <= i < b.len() && b[i] == x;
        assert((a + b)[a.len() + i] == x);
    }
}

/// What stands in a section stands in the whole.
proof fn lemma_sections(x: MetricsSnapshot, line: LineView)
    requires
        server_section(x).contains(line) || buckets_section(x).contains(line) || cluster_section(
            x,
        ).contains(line) || index_section(x).contains(line) || fts_section(x).contains(line) || (
        x.wal is Some && wal_section(x.wal->0).contains(line)) || xdcr_section(x).contains(line)
            || dcp_section(x).contains(line) || other_section(x).contains(line),
    ensures
        metrics_lines(x).contains(line),
{
    let s1 = server_section(x);
    let s2 = s1 + buckets_section(x);
    let s3 = s2 + cluster_section(x);
    let s4 = s3 + index_section(x);
    let s5 = s4 + fts_section(x);
    let w = match x.wal {
        Some(w) => wal_section(w),
        None => Seq::empty(),
    };
    let s6 = s5 + w;
    let s7 = s6 + xdcr_section(x);
    let s8 = s7 + dcp_section(x);
    lemma_either(s1, buckets_section(x), line);
    lemma_either(s2, cluster_section(x), line);
    lemma_either(s3, index_section(x), line);
    lemma_either(s4, fts_section(x), line);
    lemma_either(s5, w, line);
    lemma_either(s6, xdcr_section(x), line);
    lemma_either(s7, dcp_section(x), line);
    lemma_either(s8, other_section(x), line);
}

proof fn lemma_bucket_in(x: MetricsSnapshot, i: int, k: int, line: LineView)
    requires
        0 <= i < k <= x.buckets@.len(),
        bucket_lines(x.buckets@[i]).contains(line),
    ensures
        all_bucket_lines(x.buckets@, k).contains(line),
    decreases k,
{
    lemma_either(all_bucket_lines(x.buckets@, k - 1), bucket_lines(x.buckets@[k - 1]), line);
    if i < k - 1 {
        lemma_bucket_in(x, i, k - 1, line);
    }
}

proof fn lemma_index_in(x: MetricsSnapshot, i: int, k: int, line: LineView)
    requires
        0 <= i < k <= x.indexes@.len(),
        index_lines(x.indexes@[i]).contains(line),
    ensures
        all_index_lines(x.indexes@, k).contains(line),
    decreases k,
{
    lemma_either(all_index_lines(x.indexes@, k - 1), index_lines(x.indexes@[k - 1]), line);
    if i < k - 1 {
        lemma_index_in(x, i, k - 1, line);
    }
}

proof fn lemma_fts_in(x: MetricsSnapshot, i: int, k: int, line: LineView)
    requires
        0 <= i < k <= x.fts_indexes@.len(),
        fts_lines(x.fts_indexes@[i]).contains(line),
    ensures
        all_fts_lines(x.fts_indexes@, k).contains(line),
    decreases k,
{
    lemma_either(all_fts_lines(x.fts_indexes@, k - 1), fts_lines(x.fts_indexes@[k - 1]), line);
    if i < k - 1 {
        lemma_fts_in(x, i, k - 1, line);
    }
}

proof fn lemma_xdcr_in(x: MetricsSnapshot, i: int, k: int, line: LineView)
    requires
        0 <= i < k <= x.replications@.len(),
        xdcr_lines(x.replications@[i]).contains(line),
    ensures
        all_xdcr_lines(x.replications@, k).contains(line),
    decreases k,
{
    lemma_either(all_xdcr_lines(x.replications@, k - 1), xdcr_lines(x.replications@[k - 1]), line);
    if i < k - 1 {
        lemma_xdcr_in(x, i, k - 1, line);
    }
}

proof fn lemma_stream_in(x: MetricsSnapshot, i: int, k: int, line: LineView)
    requires
        0 <= i < k <= x.streams@.len(),
        stream_lines(x.streams@[i]).contains(line),
    ensures
        all_stream_lines(x.streams@, k).contains(line),
    decreases k,
{
    lemma_either(all_stream_lines(x.streams@, k - 1), stream_lines(x.streams@[k - 1]), line);
    if i < k - 1 {
        lemma_stream_in(x, i, k - 1, line);
    }
}

proof fn lemma_node_in(x: MetricsSnapshot, i: int, k: int, line: LineView)
    requires
        0 <= i < k <= x.nodes@.len(),
        node_lines(x.nodes@[i]).contains(line),
    ensures
        all_node_lines(x.nodes@, k).contains(line),
    decreases k,
{
    lemma_either(all_node_lines(x.nodes@, k - 1), node_lines(x.nodes@[k - 1]), line);
    if i < k - 1 {
        lemma_node_in(x, i, k - 1, line);
    }
}

proof fn lemma_bucket_told(m: MetricsSnapshot, i: int, line: LineView)
    requires
        0 <= i < m.buckets@.len(),
        bucket_lines(m.buckets@[i]).contains(line),
    ensures
        metrics_lines(m).contains(line),
{
    let n = m.buckets@.len() as int;
    lemma_bucket_in(m, i, n, line);
    let rest = all_bucket_lines(m.buckets@, n);
    let p = choose|p: int| 0 <= p < rest.len() && rest[p] == line;
    let section = buckets_section(m);
    assert(section[section.len() - rest.len() + p] == line);
    lemma_sections(m, line);
}

/// A bucket is told with its documents, its size and quota in bytes, its vBuckets, what was evicted
/// and its scopes, under its name.
pub proof fn law_bucket_values_are_told(m: MetricsSnapshot, i: int)
    requires
        0 <= i < m.buckets@.len(),
    ensures
        ({
            let x = m.buckets@[i];
            let all = metrics_lines(m);
            let labels = seq![("bucket"@, x.name@)];
            &&& all.contains(sample("oxidedb_bucket_documents_total"@, labels, x.documents as nat))
            &&& all.contains(sample("oxidedb_bucket_size_bytes"@, labels, x.size_bytes as nat))
            &&& all.contains(sample("oxidedb_bucket_ram_quota_bytes"@, labels, (1024 * (1024 * x.ram_quota_mb)) as nat))
            &&& all.contains(sample("oxidedb_bucket_vbuckets_total"@, labels, x.vbuckets as nat))
            &&& all.contains(sample("oxidedb_bucket_evicted_total"@, labels, x.evicted as nat))
            &&& all.contains(sample("oxidedb_bucket_scopes_total"@, labels, x.scopes as nat))
        }),
{
    let x = m.buckets@[i];
    let labels = seq![("bucket"@, x.name@)];
    let lines = bucket_lines(x);
    assert(lines[0] == sample("oxidedb_bucket_documents_total"@, labels, x.documents as nat));
    assert(lines.contains(lines[0]));
    lemma_bucket_told(m, i, lines[0]);
    assert(lines[1] == sample("oxidedb_bucket_size_bytes"@, labels, x.size_bytes as nat));
    assert(lines.contains(lines[1]));
    lemma_bucket_told(m, i, lines[1]);
    assert(lines[2] == sample("oxidedb_bucket_ram_quota_bytes"@, labels, (1024 * (1024 * x.ram_quota_mb)) as nat));
    assert(lines.contains(lines[2]));
    lemma_bucket_told(m, i, lines[2]);
    assert(lines[3] == sample("oxidedb_bucket_vbuckets_total"@, labels, x.vbuckets as nat));
    assert(lines.contains(lines[3]));
    lemma_bucket_told(m, i, lines[3]);
    assert(lines[4] == sample("oxidedb_bucket_evicted_total"@, labels, x.evicted as nat));
    assert(lines.contains(lines[4]));
    lemma_bucket_told(m, i, lines[4]);
    assert(lines[5] == sample("oxidedb_bucket_scopes_total"@, labels, x.scopes as nat));
    assert(lines.contains(lines[5]));
    lemma_bucket_told(m, i, lines[5]);
}

proof fn lemma_index_told(m: MetricsSnapshot, i: int, line: LineView)
    requires
        0 <= i < m.indexes@.len(),
        index_lines(m.indexes@[i]).contains(line),
    ensures
        metrics_lines(m).contains(line),
{
    let n = m.indexes@.len() as int;
    lemma_index_in(m, i, n, line);
    let rest = all_index_lines(m.indexes@, n);
    let p = choose|p: int| 0 <= p < rest.len() && rest[p] == line;
    let section = index_section(m);
    assert(section[section.len() - rest.len() + p] == line);
    lemma_sections(m, line);
}

/// A secondary index is told with its entries and whether it is online, under its bucket and its
/// name.
pub proof fn law_index_values_are_told(m: MetricsSnapshot, i: int)
    requires
        0 <= i < m.indexes@.len(),
    ensures
        ({
            let x = m.indexes@[i];
            let all = metrics_lines(m);
            let labels = seq![("bucket"@, x.bucket@), ("index"@, x.name@)];
            &&& all.contains(sample("oxidedb_index_entries"@, labels, x.entries as nat))
            &&& all.contains(sample("oxidedb_index_state"@, labels, if x.online { 1nat } else { 0 }))
        }),
{
    let x = m.indexes@[i];
    let labels = seq![("bucket"@, x.bucket@), ("index"@, x.name@)];
    let lines = index_lines(x);
    assert(lines[0] == sample("oxidedb_index_entries"@, labels, x.entries as nat));
    assert(lines.contains(lines[0]));
    lemma_index_told(m, i, lines[0]);
    assert(lines[1] == sample("oxidedb_index_state"@, labels, if x.online { 1nat } else { 0 }));
    assert(lines.contains(lines[1]));
    lemma_index_told(m, i, lines[1]);
}

proof fn lemma_fts_told(m: MetricsSnapshot, i: int, line: LineView)
    requires
        0 <= i < m.fts_indexes@.len(),
        fts_lines(m.fts_indexes@[i]).contains(line),
    ensures
        metrics_lines(m).contains(line),
{
    let n = m.fts_indexes@.len() as int;
    lemma_fts_in(m, i, n, line);
    let rest = all_fts_lines(m.fts_indexes@, n);
    let p = choose|p: int| 0 <= p < rest.len() && rest[p] == line;
    let section = fts_section(m);
    assert(section[section.len() - rest.len() + p] == line);
    lemma_sections(m, line);
}

/// A search index is told with its documents and its terms, under its bucket and its name.
pub proof fn law_fts_values_are_told(m: MetricsSnapshot, i: int)
    requires
        0 <= i < m.fts_indexes@.len(),
    ensures
        ({
            let x = m.fts_indexes@[i];
            let all = metrics_lines(m);
            let labels = seq![("bucket"@, x.bucket@), ("index"@, x.name@)];
            &&& all.contains(sample("oxidedb_fts_index_documents"@, labels, x.documents as nat))
            &&& all.contains(sample("oxidedb_fts_index_terms"@, labels, x.terms as nat))
        }),
{
    let x = m.fts_indexes@[i];
    let labels = seq![("bucket"@, x.bucket@), ("index"@, x.name@)];
    let lines = fts_lines(x);
    assert(lines[0] == sample("oxidedb_fts_index_documents"@, labels, x.documents as nat));
    assert(lines.contains(lines[0]));
    lemma_fts_told(m, i, lines[0]);
    assert(lines[1] == sample("oxidedb_fts_index_terms"@, labels, x.terms as nat));
    assert(lines.contains(lines[1]));
    lemma_fts_told(m, i, lines[1]);
}

proof fn lemma_xdcr_told(m: MetricsSnapshot, i: int, line: LineView)
    requires
        0 <= i < m.replications@.len(),
        xdcr_lines(m.replications@[i]).contains(line),
    ensures
        metrics_lines(m).contains(line),
{
    let n = m.replications@.len() as int;
    lemma_xdcr_in(m, i, n, line);
    let rest = all_xdcr_lines(m.replications@, n);
    let p = choose|p: int| 0 <= p < rest.len() && rest[p] == line;
    let section = xdcr_section(m);
    assert(section[section.len() - rest.len() + p] == line);
    lemma_sections(m, line);
}

/// A replication to another cluster is told with whether it runs, and with its documents, failures
/// and conflicts, under its id, its buckets and its cluster.
pub proof fn law_xdcr_values_are_told(m: MetricsSnapshot, i: int)
    requires
        0 <= i < m.replications@.len(),
    ensures
        ({
            let x = m.replications@[i];
            let all = metrics_lines(m);
            let labels = seq![("id"@, x.id@), ("source"@, x.source_bucket@), ("target_cluster"@, x.target_cluster@), ("target_bucket"@, x.target_bucket@)];
            &&& all.contains(sample("oxidedb_xdcr_replication_status"@, labels, if x.running { 1nat } else { 0 }))
            &&& all.contains(sample("oxidedb_xdcr_docs_replicated_total"@, labels, x.docs_replicated as nat))
            &&& all.contains(sample("oxidedb_xdcr_docs_failed_total"@, labels, x.docs_failed as nat))
            &&& all.contains(sample("oxidedb_xdcr_conflicts_total"@, labels, x.conflicts as nat))
        }),
{
    let x = m.replications@[i];
    let labels = seq![("id"@, x.id@), ("source"@, x.source_bucket@), ("target_cluster"@, x.target_cluster@), ("target_bucket"@, x.target_bucket@)];
    let lines = xdcr_lines(x);
    assert(lines[0] == sample("oxidedb_xdcr_replication_status"@, labels, if x.running { 1nat } else { 0 }));
    assert(lines.contains(lines[0]));
    lemma_xdcr_told(m, i, lines[0]);
    assert(lines[1] == sample("oxidedb_xdcr_docs_replicated_total"@, labels, x.docs_replicated as nat));
    assert(lines.contains(lines[1]));
    lemma_xdcr_told(m, i, lines[1]);
    assert(lines[2] == sample("oxidedb_xdcr_docs_failed_total"@, labels, x.docs_failed as nat));
    assert(lines.contains(lines[2]));
    lemma_xdcr_told(m, i, lines[2]);
    assert(lines[3] == sample("oxidedb_xdcr_conflicts_total"@, labels, x.conflicts as nat));
    assert(lines.contains(lines[3]));
    lemma_xdcr_told(m, i, lines[3]);
}

proof fn lemma_stream_told(m: MetricsSnapshot, i: int, line: LineView)
    requires
        0 <= i < m.streams@.len(),
        stream_lines(m.streams@[i]).contains(line),
    ensures
        metrics_lines(m).contains(line),
{
    let n = m.streams@.len() as int;
    lemma_stream_in(m, i, n, line);
    let rest = all_stream_lines(m.streams@, n);
    let p = choose|p: int| 0 <= p < rest.len() && rest[p] == line;
    let section = dcp_section(m);
    assert(section[section.len() - rest.len() + p] == line);
    lemma_sections(m, line);
}

/// A stream of changes is told with whether it is active and how many events went out, under its id,
/// its name and its bucket.
pub proof fn law_stream_values_are_told(m: MetricsSnapshot, i: int)
    requires
        0 <= i < m.streams@.len(),
    ensures
        ({
            let x = m.streams@[i];
            let all = metrics_lines(m);
            let labels = seq![("id"@, x.id@), ("name"@, x.name@), ("bucket"@, x.bucket@)];
            &&& all.contains(sample("oxidedb_dcp_stream_active"@, labels, if x.active { 1nat } else { 0 }))
            &&& all.contains(sample("oxidedb_dcp_stream_events_total"@, labels, x.events_streamed as nat))
        }),
{
    let x = m.streams@[i];
    let labels = seq![("id"@, x.id@), ("name"@, x.name@), ("bucket"@, x.bucket@)];
    let lines = stream_lines(x);
    assert(lines[0] == sample("oxidedb_dcp_stream_active"@, labels, if x.active { 1nat } else { 0 }));
    assert(lines.contains(lines[0]));
    lemma_stream_told(m, i, lines[0]);
    assert(lines[1] == sample("oxidedb_dcp_stream_events_total"@, labels, x.events_streamed as nat));
    assert(lines.contains(lines[1]));
    lemma_stream_told(m, i, lines[1]);
}

/// A node is told with whether it is healthy, under its name and its status.
pub proof fn law_node_values_are_told(m: MetricsSnapshot, i: int)
    requires
        0 <= i < m.nodes@.len(),
    ensures
        metrics_lines(m).contains(
            sample(
                "oxidedb_cluster_node_status"@,
                seq![
                    ("node"@, m.nodes@[i].name@),
                    ("status"@, status_name(m.nodes@[i].status)),
                ],
                if m.nodes@[i].status == NodeStatus::Healthy { 1nat } else { 0 },
            ),
        ),
{
    let lines = node_lines(m.nodes@[i]);
    let line = lines[0];
    assert(lines.contains(line));
    let n = m.nodes@.len() as int;
    lemma_node_in(m, i, n, line);
    let rest = all_node_lines(m.nodes@, n);
    let p = choose|p: int| 0 <= p < rest.len() && rest[p] == line;
    let section = cluster_section(m);
    assert(section[3 + p] == line);
    assert(section.contains(line));
    lemma_sections(m, line);
}

/// What the server as a whole has is told without labels: how long it is up, how many buckets, nodes,
/// indexes, replications and streams there are, and the like.
pub proof fn law_totals_are_told(m: MetricsSnapshot)
    ensures
        ({
            let all = metrics_lines(m);
            let none = Seq::<(Seq<char>, Seq<char>)>::empty();
            &&& all.contains(sample("oxidedb_uptime_seconds"@, none, m.uptime_seconds as nat))
            &&& all.contains(sample("oxidedb_up"@, none, 1))
            &&& all.contains(sample("oxidedb_buckets_total"@, none, m.buckets_total as nat))
            &&& all.contains(sample("oxidedb_cluster_nodes_total"@, none, m.nodes@.len()))
            &&& all.contains(sample("oxidedb_indexes_total"@, none, m.indexes@.len()))
            &&& all.contains(sample("oxidedb_fts_indexes_total"@, none, m.fts_indexes@.len()))
            &&& all.contains(sample("oxidedb_xdcr_replications_total"@, none, m.replications@.len()))
            &&& all.contains(sample("oxidedb_dcp_streams_total"@, none, m.streams@.len()))
            &&& all.contains(sample("oxidedb_transactions_active"@, none, m.active_transactions as nat))
            &&& all.contains(sample("oxidedb_audit_events_total"@, none, m.audit_events as nat))
            &&& all.contains(sample("oxidedb_audit_enabled"@, none, if m.audit_enabled { 1nat } else { 0 }))
            &&& all.contains(sample("oxidedb_prepared_statements_total"@, none, m.prepared_statements as nat))
            &&& all.contains(sample("oxidedb_rbac_users_total"@, none, m.users as nat))
            &&& all.contains(sample("oxidedb_cluster_vbuckets_total"@, none, m.map_vbuckets as nat))
            &&& all.contains(sample("oxidedb_cluster_partition_map_revision"@, none, m.map_revision as nat))
            &&& all.contains(sample("oxidedb_cluster_rebalance_in_progress"@, none, if m.rebalance_in_progress { 1nat } else { 0 }))
        }),
{
    let none = Seq::<(Seq<char>, Seq<char>)>::empty();
    assert(server_section(m)[5] == sample("oxidedb_uptime_seconds"@, none, m.uptime_seconds as nat));
    lemma_sections(m, server_section(m)[5]);
    assert(server_section(m)[3] == sample("oxidedb_up"@, none, 1));
    lemma_sections(m, server_section(m)[3]);
    assert(buckets_section(m)[1] == sample("oxidedb_buckets_total"@, none, m.buckets_total as nat));
    lemma_sections(m, buckets_section(m)[1]);
    assert(cluster_section(m)[1] == sample("oxidedb_cluster_nodes_total"@, none, m.nodes@.len()));
    lemma_sections(m, cluster_section(m)[1]);
    assert(index_section(m)[1] == sample("oxidedb_indexes_total"@, none, m.indexes@.len()));
    lemma_sections(m, index_section(m)[1]);
    assert(fts_section(m)[1] == sample("oxidedb_fts_indexes_total"@, none, m.fts_indexes@.len()));
    lemma_sections(m, fts_section(m)[1]);
    assert(xdcr_section(m)[1] == sample("oxidedb_xdcr_replications_total"@, none, m.replications@.len()));
    lemma_sections(m, xdcr_section(m)[1]);
    assert(dcp_section(m)[1] == sample("oxidedb_dcp_streams_total"@, none, m.streams@.len()));
    lemma_sections(m, dcp_section(m)[1]);
    assert(other_section(m)[1] == sample("oxidedb_transactions_active"@, none, m.active_transactions as nat));
    lemma_sections(m, other_section(m)[1]);
    assert(other_section(m)[3] == sample("oxidedb_audit_events_total"@, none, m.audit_events as nat));
    lemma_sections(m, other_section(m)[3]);
    assert(other_section(m)[5] == sample("oxidedb_audit_enabled"@, none, if m.audit_enabled { 1nat } else { 0 }));
    lemma_sections(m, other_section(m)[5]);
    assert(other_section(m)[7] == sample("oxidedb_prepared_statements_total"@, none, m.prepared_statements as nat));
    lemma_sections(m, other_section(m)[7]);
    assert(other_section(m)[9] == sample("oxidedb_rbac_users_total"@, none, m.users as nat));
    lemma_sections(m, other_section(m)[9]);
    let c = cluster_section(m);
    let n = c.len() - 8;
    assert(c[n + 7] == sample("oxidedb_cluster_vbuckets_total"@, none, m.map_vbuckets as nat));
    lemma_sections(m, c[n + 7]);
    assert(c[n + 5] == sample("oxidedb_cluster_partition_map_revision"@, none, m.map_revision as nat));
    lemma_sections(m, c[n + 5]);
    assert(c[n + 1] == sample("oxidedb_cluster_rebalance_in_progress"@, none, if m.rebalance_in_progress { 1nat } else { 0 }));
    lemma_sections(m, c[n + 1]);
}

/// Where documents are kept on disk, the state of the log and its limits are told.
pub proof fn law_log_values_are_told(m: MetricsSnapshot, w: WalMetrics)
    requires
        m.wal == Some(w),
    ensures
        ({
            let all = metrics_lines(m);
            let none = Seq::<(Seq<char>, Seq<char>)>::empty();
            &&& all.contains(sample("oxidedb_wal_buffer_pending_ops"@, none, w.pending_ops as nat))
            &&& all.contains(sample("oxidedb_wal_buffer_pending_bytes"@, none, w.pending_bytes as nat))
            &&& all.contains(sample("oxidedb_wal_buffer_total_buffered"@, none, w.total_buffered as nat))
            &&& all.contains(sample("oxidedb_wal_buffer_total_flushes"@, none, w.total_flushes as nat))
            &&& all.contains(sample("oxidedb_wal_ms_since_flush"@, none, w.ms_since_flush as nat))
            &&& all.contains(sample("oxidedb_wal_config_max_ops"@, none, w.config_max_ops as nat))
            &&& all.contains(sample("oxidedb_wal_config_max_bytes"@, none, w.config_max_bytes as nat))
        }),
{
    let none = Seq::<(Seq<char>, Seq<char>)>::empty();
    assert(wal_section(w)[1] == sample("oxidedb_wal_buffer_pending_ops"@, none, w.pending_ops as nat));
    lemma_sections(m, wal_section(w)[1]);
    assert(wal_section(w)[3] == sample("oxidedb_wal_buffer_pending_bytes"@, none, w.pending_bytes as nat));
    lemma_sections(m, wal_section(w)[3]);
    assert(wal_section(w)[5] == sample("oxidedb_wal_buffer_total_buffered"@, none, w.total_buffered as nat));
    lemma_sections(m, wal_section(w)[5]);
    assert(wal_section(w)[7] == sample("oxidedb_wal_buffer_total_flushes"@, none, w.total_flushes as nat));
    lemma_sections(m, wal_section(w)[7]);
    assert(wal_section(w)[9] == sample("oxidedb_wal_ms_since_flush"@, none, w.ms_since_flush as nat));
    lemma_sections(m, wal_section(w)[9]);
    assert(wal_section(w)[11] == sample("oxidedb_wal_config_max_ops"@, none, w.config_max_ops as nat));
    lemma_sections(m, wal_section(w)[11]);
    assert(wal_section(w)[13] == sample("oxidedb_wal_config_max_bytes"@, none, w.config_max_bytes as nat));
    lemma_sections(m, wal_section(w)[13]);
}

proof fn lemma_wal_file_in(w: WalMetrics, i: int, k: int, line: LineView)
    requires
        0 <= i < k <= w.buckets@.len(),
        wal_file_lines(w.buckets@[i]).contains(line),
    ensures
        all_wal_file_lines(w.buckets@, k).contains(line),
    decreases k,
{
    lemma_either(all_wal_file_lines(w.buckets@, k - 1), wal_file_lines(w.buckets@[k - 1]), line);
    if i < k - 1 {
        lemma_wal_file_in(w, i, k - 1, line);
    }
}

proof fn lemma_btree_in(w: WalMetrics, i: int, k: int, line: LineView)
    requires
        0 <= i < k <= w.buckets@.len(),
        btree_lines(w.buckets@[i]).contains(line),
    ensures
        all_btree_lines(w.buckets@, k).contains(line),
    decreases k,
{
    lemma_either(all_btree_lines(w.buckets@, k - 1), btree_lines(w.buckets@[k - 1]), line);
    if i < k - 1 {
        lemma_btree_in(w, i, k - 1, line);
    }
}

proof fn lemma_disk_told(m: MetricsSnapshot, w: WalMetrics, i: int, line: LineView)
    requires
        m.wal == Some(w),
        0 <= i < w.buckets@.len(),
        wal_file_lines(w.buckets@[i]).contains(line) || btree_lines(w.buckets@[i]).contains(line),
    ensures
        metrics_lines(m).contains(line),
{
    let n = w.buckets@.len() as int;
    let files = all_wal_file_lines(w.buckets@, n);
    let trees = all_btree_lines(w.buckets@, n);
    let section = wal_section(w);
    if wal_file_lines(w.buckets@[i]).contains(line) {
        lemma_wal_file_in(w, i, n, line);
        let p = choose|p: int| 0 <= p < files.len() && files[p] == line;
        assert(section[15 + p] == line);
    } else {
        lemma_btree_in(w, i, n, line);
        let p = choose|p: int| 0 <= p < trees.len() && trees[p] == line;
        assert(section[section.len() - trees.len() + p] == line);
    }
    assert(section.contains(line));
    lemma_sections(m, line);
}

/// What a bucket takes on disk is told under its name: the size of its log and of its tree, and the
/// pages, the records and the height of the tree.
pub proof fn law_disk_values_are_told(m: MetricsSnapshot, w: WalMetrics, i: int)
    requires
        m.wal == Some(w),
        0 <= i < w.buckets@.len(),
    ensures
        ({
            let x = w.buckets@[i];
            let all = metrics_lines(m);
            let labels = seq![("bucket"@, x.bucket@)];
            &&& all.contains(
                sample(
                    "oxidedb_persistence_wal_file_size_bytes"@,
                    labels,
                    x.wal_file_size_bytes as nat,
                ),
            )
            &&& all.contains(
                sample(
                    "oxidedb_persistence_btree_file_size_bytes"@,
                    labels,
                    x.btree_file_size_bytes as nat,
                ),
            )
            &&& all.contains(
                sample("oxidedb_persistence_btree_pages"@, labels, x.btree_pages as nat),
            )
            &&& all.contains(
                sample("oxidedb_persistence_btree_records"@, labels, x.btree_records as nat),
            )
            &&& all.contains(
                sample("oxidedb_persistence_btree_height"@, labels, x.btree_height as nat),
            )
        }),
{
    let x = w.buckets@[i];
    let files = wal_file_lines(x);
    let trees = btree_lines(x);
    assert(files.contains(files[0]));
    lemma_disk_told(m, w, i, files[0]);
    assert(trees.contains(trees[0]));
    lemma_disk_told(m, w, i, trees[0]);
    assert(trees.contains(trees[1]));
    lemma_disk_told(m, w, i, trees[1]);
    assert(trees.contains(trees[2]));
    lemma_disk_told(m, w, i, trees[2]);
    assert(trees.contains(trees[3]));
    lemma_disk_told(m, w, i, trees[3]);
}

/// Quotes, backslashes and line ends in a label stand behind a backslash, every other character for
/// itself, one after the other.
pub proof fn law_labels_are_escaped(s: Seq<char>, c: char)
    ensures
        escaped(s.push(c)) == escaped(s) + escaped(seq![c]),
        escaped(Seq::empty()) == Seq::<char>::empty(),
        c != '"' && c != '\\' && c != '\n' ==> escaped(seq![c]) == seq![c],
        c == '"' || c == '\\' ==> escaped(seq![c]) == seq!['\\', c],
        c == '\n' ==> escaped(seq![c]) == seq!['\\', 'n'],
{
    let one = seq![c];
    assert(s.push(c).drop_last() =~= s);
    assert(one.drop_last() =~= Seq::<char>::empty());
    assert(escaped(one.drop_last()) == Seq::<char>::empty());
    assert(escaped(one) =~= label_char(c));
}

/// A value is written behind its name, with its labels in braces between them where it has any; a
/// header tells what a name means and of which kind it is.
pub proof fn law_lines_are_written(
    name: Seq<char>,
    value: Seq<char>,
    help: Seq<char>,
    kind: Seq<char>,
    a: (Seq<char>, Seq<char>),
    b: (Seq<char>, Seq<char>),
)
    ensures
        line_text(LineView::Sample { name, labels: Seq::empty(), value }) == name + " "@ + value
            + "\n"@,
        line_text(LineView::Sample { name, labels: seq![a], value }) == name + "{"@ + (a.0 + "=\""@
            + escaped(a.1) + "\""@) + "} "@ + value + "\n"@,
        line_text(LineView::Sample { name, labels: seq![a, b], value }) == name + "{"@ + ((a.0
            + "=\""@ + escaped(a.1) + "\""@) + ","@ + (b.0 + "=\""@ + escaped(b.1) + "\""@)) + "} "@
            + value + "\n"@,
        line_text(LineView::Header { name, help, kind }) == "# HELP "@ + name + " "@ + help
            + "\n# TYPE "@ + name + " "@ + kind + "\n"@,
{
    reveal_with_fuel(labels_text, 3);
    let one = seq![a];
    let two = seq![a, b];
    assert(one.len() == 1 && one[0] == a);
    assert(two.len() == 2 && two[0] == a && two[1] == b);
}

/// Lines are written one after the other.
pub proof fn law_lines_follow_each_other(lines: Seq<LineView>, last: LineView)
    ensures
        lines_text(lines, 0) == Seq::<char>::empty(),
        lines_text(lines.push(last), lines.len() as int + 1) == lines_text(
            lines,
            lines.len() as int,
        ) + line_text(last),
{
    lemma_lines(lines, lines.push(last), lines.len() as int);
}

proof fn lemma_lines(a: Seq<LineView>, b: Seq<LineView>, k: int)
    requires
        k <= a.len(),
        k <= b.len(),
        forall|i: int| 0 <= i < k ==> a[i] == b[i],
    ensures
        lines_text(a, k) == lines_text(b, k),
    decreases k,
{
    if k > 0 {
        lemma_lines(a, b, k - 1);
    }
}

} // verus!
