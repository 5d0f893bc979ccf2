//! The state of the server as text that a Prometheus scraper reads.

use crate::cluster::manager::{status_name, status_text};
use crate::cluster::node::NodeStatus;
use crate::text::{chars_of, dec, dec_text, push_char};
use vstd::prelude::*;
use vstd::string::*;

verus! {

/// How a character stands inside a label.
pub open spec fn label_char(c: char) -> Seq<char> {
    if c == '\\' {
        seq!['\\', '\\']
    } else if c == '"' {
        seq!['\\', '"']
    } else if c == '\n' {
        seq!['\\', 'n']
    } else {
        seq![c]
    }
}

/// A text as it stands inside a label.
pub open spec fn escaped(s: Seq<char>) -> Seq<char>
    decreases s.len(),
{
    if s.len() == 0 {
        Seq::empty()
    } else {
        escaped(s.drop_last()) + label_char(s.last())
    }
}

/// A text as it stands inside a label: with backslashes before quotes and backslashes, on one
/// line.
pub fn escape_label(s: &str) -> (r: String)
    ensures
        r@ == escaped(s@),
{
    let cs = chars_of(s);
    let mut out = String::new();
    let mut k: usize = 0;
    assert(cs@.take(0) =~= Seq::<char>::empty());
    while k < cs.len()
        invariant
            k <= cs@.len(),
            out@ == escaped(cs@.take(k as int)),
        decreases cs@.len() - k,
    {
        let ghost prior = out@;
        let c = cs[k];
        proof {
            assert(cs@.take(k + 1).drop_last() =~= cs@.take(k as int));
            assert(cs@.take(k + 1).last() == c);
        }
        if c == '\\' {
            push_char(&mut out, '\\');
            push_char(&mut out, '\\');
        } else if c == '"' {
            push_char(&mut out, '\\');
            push_char(&mut out, '"');
        } else if c == '\n' {
            push_char(&mut out, '\\');
            push_char(&mut out, 'n');
        } else {
            push_char(&mut out, c);
        }
        assert(out@ =~= prior + label_char(c));
        k = k + 1;
    }
    assert(cs@.take(k as int) =~= cs@);
    out
}

/// What comes first in an escaped text is the escape of the first character.
proof fn lemma_escaped_first(s: Seq<char>)
    requires
        s.len() > 0,
    ensures
        escaped(s) == label_char(s[0]) + escaped(s.drop_first()),
    decreases s.len(),
{
    if s.len() == 1 {
        assert(s.drop_last() =~= Seq::<char>::empty());
        assert(s.drop_first() =~= Seq::<char>::empty());
        assert(escaped(s) =~= label_char(s[0]) + escaped(s.drop_first()));
    } else {
        lemma_escaped_first(s.drop_last());
        assert(s.drop_first().drop_last() =~= s.drop_last().drop_first());
        assert(s.drop_last()[0] == s[0]);
        assert(s.drop_first().last() == s.last());
        assert(escaped(s) =~= label_char(s[0]) + escaped(s.drop_first()));
    }
}

/// A label stays on its line, whatever text it holds.
pub proof fn law_labels_stay_on_their_line(s: Seq<char>)
    ensures
        !escaped(s).contains('\n'),
    decreases s.len(),
{
    if s.len() > 0 {
        law_labels_stay_on_their_line(s.drop_last());
        let rest = escaped(s.drop_last());
        let all = escaped(s);
        assert forall|i: int| 0 <= i < all.len() implies all[i] != '\n' by {
            if i < rest.len() {
                assert(all[i] == rest[i]);
            } else {
                assert(all[i] == label_char(s.last())[i - rest.len()]);
            }
        }
    }
}

/// Different texts are different labels.
pub proof fn law_labels_are_kept_apart(a: Seq<char>, b: Seq<char>)
    requires
        escaped(a) == escaped(b),
    ensures
        a == b,
    decreases a.len(),
{
    if a.len() == 0 || b.len() == 0 {
        if a.len() > 0 {
            lemma_escaped_first(a);
        }
        if b.len() > 0 {
            lemma_escaped_first(b);
        }
        assert(a =~= b);
    } else {
        lemma_escaped_first(a);
        lemma_escaped_first(b);
        let x = label_char(a[0]);
        let y = label_char(b[0]);
        let e = escaped(a);
        assert(e[0] == x[0] && e[0] == y[0]);
        if x.len() == 2 {
            assert(e[1] == x[1]);
        }
        if y.len() == 2 {
            assert(e[1] == y[1]);
        }
        assert(a[0] == b[0]);
        assert(e.subrange(x.len() as int, e.len() as int) =~= escaped(a.drop_first()));
        assert(e.subrange(x.len() as int, e.len() as int) =~= escaped(b.drop_first()));
        law_labels_are_kept_apart(a.drop_first(), b.drop_first());
        assert(a =~= seq![a[0]] + a.drop_first());
        assert(b =~= seq![b[0]] + b.drop_first());
    }
}

/// A line or two of the text.
#[derive(Debug)]
pub enum Line {
    /// What a metric means, and of which kind it is.
    Header { name: String, help: String, kind: String },
    /// A value, for the given labels.
    Sample { name: String, labels: Vec<(String, String)>, value: String },
}

/// What a [`Line`] stands for.
pub enum LineView {
    Header { name: Seq<char>, help: Seq<char>, kind: Seq<char> },
    Sample { name: Seq<char>, labels: Seq<(Seq<char>, Seq<char>)>, value: Seq<char> },
}

/// What a list of labels stands for.
pub open spec fn label_views(v: Seq<(String, String)>) -> Seq<(Seq<char>, Seq<char>)> {
    Seq::new(v.len(), |i: int| (v[i].0@, v[i].1@))
}

impl View for Line {
    type V = LineView;

    open spec fn view(&self) -> LineView {
        match *self {
            Line::Header { name, help, kind } => LineView::Header {
                name: name@,
                help: help@,
                kind: kind@,
            },
            Line::Sample { name, labels, value } => LineView::Sample {
                name: name@,
                labels: label_views(labels@),
                value: value@,
            },
        }
    }
}

/// What a list of lines stands for.
pub open spec fn line_views(v: Seq<Line>) -> Seq<LineView> {
    Seq::new(v.len(), |i: int| v[i]@)
}

/// The first `k` labels, separated by commas.
pub open spec fn labels_text(labels: Seq<(Seq<char>, Seq<char>)>, k: int) -> Seq<char>
    decreases k,
{
    if k <= 0 {
        Seq::empty()
    } else {
        let own = labels[k - 1].0 + "=\""@ + escaped(labels[k - 1].1) + "\""@;
        if k == 1 {
            own
        } else {
            labels_text(labels, k - 1) + ","@ + own
        }
    }
}

/// How a line is written.
pub open spec fn line_text(line: LineView) -> Seq<char> {
    match line {
        LineView::Header { name, help, kind } => "# HELP "@ + name + " "@ + help + "\n# TYPE "@ + name
            + " "@ + kind + "\n"@,
        LineView::Sample { name, labels, value } => if labels.len() == 0 {
            name + " "@ + value + "\n"@
        } else {
            name + "{"@ + labels_text(labels, labels.len() as int) + "} "@ + value + "\n"@
        },
    }
}

/// How the first `k` lines are written.
pub open spec fn lines_text(lines: Seq<LineView>, k: int) -> Seq<char>
    decreases k,
{
    if k <= 0 {
        Seq::empty()
    } else {
        lines_text(lines, k - 1) + line_text(lines[k - 1])
    }
}

/// Writes what a metric means, and of which kind it is.
pub fn write_help_type(out: &mut String, name: &str, help: &str, kind: &str)
    ensures
        final(out)@ == old(out)@ + line_text(
            (LineView::Header { name: name@, help: help@, kind: kind@ }),
        ),
{
    let ghost before = out@;
    out.append("# HELP ");
    out.append(name);
    out.append(" ");
    out.append(help);
    out.append("\n# TYPE ");
    out.append(name);
    out.append(" ");
    out.append(kind);
    out.append("\n");
    assert(out@ =~= before + line_text(
        (LineView::Header { name: name@, help: help@, kind: kind@ }),
    ));
}

fn write_labels(out: &mut String, labels: &Vec<(String, String)>)
    ensures
        final(out)@ == old(out)@ + labels_text(label_views(labels@), labels@.len() as int),
{
    let ghost before = out@;
    let ghost views = label_views(labels@);
    let mut k: usize = 0;
    assert(before + labels_text(views, 0) =~= before);
    while k < labels.len()
        invariant
            k <= labels@.len(),
            views == label_views(labels@),
            out@ == before + labels_text(views, k as int),
        decreases labels@.len() - k,
    {
        assert(views[k as int] == (labels@[k as int].0@, labels@[k as int].1@));
        if k > 0 {
            out.append(",");
        }
        out.append(labels[k].0.as_str());
        out.append("=\"");
        let value = escape_label(labels[k].1.as_str());
        out.append(value.as_str());
        out.append("\"");
        k = k + 1;
        assert(out@ =~= before + labels_text(views, k as int));
    }
}

fn write_line(out: &mut String, line: &Line)
    ensures
        final(out)@ == old(out)@ + line_text(line@),
{
    let ghost before = out@;
    match line {
        Line::Header { name, help, kind } => {
            write_help_type(out, name.as_str(), help.as_str(), kind.as_str());
        },
        Line::Sample { name, labels, value } => {
            assert(label_views(labels@).len() == labels@.len());
            out.append(name.as_str());
            if labels.len() > 0 {
                out.append("{");
                write_labels(out, labels);
                out.append("} ");
            } else {
                out.append(" ");
            }
            out.append(value.as_str());
            out.append("\n");
            assert(out@ =~= before + line_text(line@));
        },
    }
}

/// Writes lines down.
pub fn render(lines: &Vec<Line>) -> (r: String)
    ensures
        r@ == lines_text(line_views(lines@), lines@.len() as int),
{
    let ghost views = line_views(lines@);
    let mut out = String::new();
    let mut k: usize = 0;
    while k < lines.len()
        invariant
            k <= lines@.len(),
            views == line_views(lines@),
            out@ == lines_text(views, k as int),
        decreases lines@.len() - k,
    {
        assert(views[k as int] == lines@[k as int]@);
        write_line(&mut out, &lines[k]);
        k = k + 1;
    }
    out
}

/// The header of a gauge.
pub open spec fn gauge(name: Seq<char>, help: Seq<char>) -> LineView {
    LineView::Header { name, help, kind: "gauge"@ }
}

/// The header of a counter.
pub open spec fn counter(name: Seq<char>, help: Seq<char>) -> LineView {
    LineView::Header { name, help, kind: "counter"@ }
}

/// A value without labels.
pub open spec fn plain(name: Seq<char>, value: nat) -> LineView {
    LineView::Sample { name, labels: Seq::empty(), value: dec(value) }
}

/// A value with labels.
pub open spec fn labelled(name: Seq<char>, labels: Seq<(Seq<char>, Seq<char>)>, value: nat) -> LineView {
    LineView::Sample { name, labels, value: dec(value) }
}

/// One for true, zero for false.
pub open spec fn flag(b: bool) -> nat {
    if b {
        1
    } else {
        0
    }
}

fn flag_value(b: bool) -> (r: u64)
    ensures
        r == flag(b),
{
    if b {
        1
    } else {
        0
    }
}

fn push_gauge(lines: &mut Vec<Line>, name: &str, help: &str)
    ensures
        line_views(final(lines)@) == line_views(old(lines)@).push(gauge(name@, help@)),
{
    let ghost prior = lines@;
    lines.push(
        Line::Header { name: name.to_owned(), help: help.to_owned(), kind: "gauge".to_owned() },
    );
    assert(line_views(lines@) =~= line_views(prior).push(gauge(name@, help@)));
}

fn push_counter(lines: &mut Vec<Line>, name: &str, help: &str)
    ensures
        line_views(final(lines)@) == line_views(old(lines)@).push(counter(name@, help@)),
{
    let ghost prior = lines@;
    lines.push(
        Line::Header { name: name.to_owned(), help: help.to_owned(), kind: "counter".to_owned() },
    );
    assert(line_views(lines@) =~= line_views(prior).push(counter(name@, help@)));
}

fn push_text(lines: &mut Vec<Line>, name: &str, value: &str)
    ensures
        line_views(final(lines)@) == line_views(old(lines)@).push(
            (LineView::Sample { name: name@, labels: Seq::empty(), value: value@ }),
        ),
{
    let ghost prior = lines@;
    let labels: Vec<(String, String)> = Vec::new();
    assert(label_views(labels@) =~= Seq::<(Seq<char>, Seq<char>)>::empty());
    lines.push(Line::Sample { name: name.to_owned(), labels, value: value.to_owned() });
    assert(line_views(lines@) =~= line_views(prior).push(
        (LineView::Sample { name: name@, labels: Seq::empty(), value: value@ }),
    ));
}

fn push_plain(lines: &mut Vec<Line>, name: &str, value: u64)
    ensures
        line_views(final(lines)@) == line_views(old(lines)@).push(plain(name@, value as nat)),
{
    let text = dec_text(value);
    push_text(lines, name, text.as_str());
}

fn copy_labels(labels: &Vec<(String, String)>) -> (r: Vec<(String, String)>)
    ensures
        label_views(r@) == label_views(labels@),
{
    let mut out: Vec<(String, String)> = Vec::new();
    let mut k: usize = 0;
    while k < labels.len()
        invariant
            k <= labels@.len(),
            out@.len() == k,
            forall|i: int|
                0 <= i < k ==> (#[trigger] out@[i]).0@ == labels@[i].0@ && out@[i].1@
                    == labels@[i].1@,
        decreases labels@.len() - k,
    {
        out.push((labels[k].0.clone(), labels[k].1.clone()));
        k = k + 1;
    }
    assert(label_views(out@) =~= label_views(labels@));
    out
}

fn push_labelled(lines: &mut Vec<Line>, name: &str, labels: &Vec<(String, String)>, value: u64)
    ensures
        line_views(final(lines)@) == line_views(old(lines)@).push(
            labelled(name@, label_views(labels@), value as nat),
        ),
{
    let ghost prior = lines@;
    lines.push(
        Line::Sample { name: name.to_owned(), labels: copy_labels(labels), value: dec_text(value) },
    );
    assert(line_views(lines@) =~= line_views(prior).push(
        labelled(name@, label_views(labels@), value as nat),
    ));
}

fn push_label(labels: &mut Vec<(String, String)>, name: &str, value: &str)
    ensures
        label_views(final(labels)@) == label_views(old(labels)@).push((name@, value@)),
{
    let ghost prior = labels@;
    labels.push((name.to_owned(), value.to_owned()));
    assert(label_views(labels@) =~= label_views(prior).push((name@, value@)));
}

fn no_labels() -> (r: Vec<(String, String)>)
    ensures
        label_views(r@) == Seq::<(Seq<char>, Seq<char>)>::empty(),
{
    let labels: Vec<(String, String)> = Vec::new();
    assert(label_views(labels@) =~= Seq::<(Seq<char>, Seq<char>)>::empty());
    labels
}

/// A bucket that is open.
#[derive(Debug)]
pub struct BucketMetrics {
    pub name: String,
    pub documents: u64,
    pub size_bytes: u64,
    pub ram_quota_mb: u64,
    pub vbuckets: u16,
    pub evicted: u64,
    pub scopes: u64,
}

/// A node of the cluster.
#[derive(Debug)]
pub struct NodeMetrics {
    pub name: String,
    pub status: NodeStatus,
}

/// A secondary index.
#[derive(Debug)]
pub struct IndexMetrics {
    pub bucket: String,
    pub name: String,
    pub entries: u64,
    pub online: bool,
}

/// A search index.
#[derive(Debug)]
pub struct FtsMetrics {
    pub bucket: String,
    pub name: String,
    pub documents: u64,
    pub terms: u64,
}

/// What a bucket takes on disk.
#[derive(Debug)]
pub struct DiskMetrics {
    pub bucket: String,
    pub wal_file_size_bytes: u64,
    pub btree_file_size_bytes: u64,
    pub btree_pages: u64,
    pub btree_records: u64,
    pub btree_height: u64,
}

/// The write-ahead log.
#[derive(Debug)]
pub struct WalMetrics {
    pub pending_ops: u64,
    pub pending_bytes: u64,
    pub total_buffered: u64,
    pub total_flushes: u64,
    pub ms_since_flush: u64,
    pub config_max_ops: u64,
    pub config_max_bytes: u64,
    pub buckets: Vec<DiskMetrics>,
}

/// A replication to another cluster.
#[derive(Debug)]
pub struct XdcrMetrics {
    pub id: String,
    pub source_bucket: String,
    pub target_cluster: String,
    pub target_bucket: String,
    pub running: bool,
    pub docs_replicated: u64,
    pub docs_failed: u64,
    pub conflicts: u64,
}

/// A stream of changes.
#[derive(Debug)]
pub struct StreamMetrics {
    pub id: String,
    pub name: String,
    pub bucket: String,
    pub active: bool,
    pub events_streamed: u64,
}

/// The state of the server.
#[derive(Debug)]
pub struct MetricsSnapshot {
    pub uptime_seconds: u64,
    /// The number of buckets, also of those that are not open.
    pub buckets_total: u64,
    pub buckets: Vec<BucketMetrics>,
    pub nodes: Vec<NodeMetrics>,
    pub rebalance_in_progress: bool,
    /// The percentage with two decimals.
    pub rebalance_percent: String,
    pub map_revision: u64,
    pub map_vbuckets: u16,
    pub indexes: Vec<IndexMetrics>,
    pub fts_indexes: Vec<FtsMetrics>,
    /// There is none where nothing is kept on disk.
    pub wal: Option<WalMetrics>,
    pub replications: Vec<XdcrMetrics>,
    pub streams: Vec<StreamMetrics>,
    pub active_transactions: u64,
    pub audit_events: u64,
    pub audit_enabled: bool,
    pub prepared_statements: u64,
    pub users: u64,
}

/// Whether the quotas can be told in bytes.
pub open spec fn quotas_fit(list: Seq<BucketMetrics>) -> bool {
    forall|i: int| 0 <= i < list.len() ==> (#[trigger] list[i]).ram_quota_mb * 1024 * 1024 <= u64::MAX
}

/// The labels of a bucket.
pub open spec fn bucket_labels(x: BucketMetrics) -> Seq<(Seq<char>, Seq<char>)> {
    seq![("bucket"@, x.name@)]
}

/// The values of a bucket.
pub open spec fn bucket_lines(x: BucketMetrics) -> Seq<LineView> {
    seq![
        labelled("oxidedb_bucket_documents_total"@, bucket_labels(x), x.documents as nat),
        labelled("oxidedb_bucket_size_bytes"@, bucket_labels(x), x.size_bytes as nat),
        labelled("oxidedb_bucket_ram_quota_bytes"@, bucket_labels(x), (x.ram_quota_mb * 1024 * 1024) as nat),
        labelled("oxidedb_bucket_vbuckets_total"@, bucket_labels(x), x.vbuckets as nat),
        labelled("oxidedb_bucket_evicted_total"@, bucket_labels(x), x.evicted as nat),
        labelled("oxidedb_bucket_scopes_total"@, bucket_labels(x), x.scopes as nat),
    ]
}

/// The values of the first `k`.
pub open spec fn all_bucket_lines(list: Seq<BucketMetrics>, k: int) -> Seq<LineView>
    decreases k,
{
    if k <= 0 {
        Seq::empty()
    } else {
        all_bucket_lines(list, k - 1) + bucket_lines(list[k - 1])
    }
}

fn push_bucket(lines: &mut Vec<Line>, x: &BucketMetrics)
    requires
        x.ram_quota_mb * 1024 * 1024 <= u64::MAX,
    ensures
        line_views(final(lines)@) == line_views(old(lines)@) + bucket_lines(*x),
{
    let ghost before = line_views(lines@);
    let mut labels = no_labels();
    push_label(&mut labels, "bucket", x.name.as_str());
    assert(label_views(labels@) =~= bucket_labels(*x));
    push_labelled(lines, "oxidedb_bucket_documents_total", &labels, x.documents);
    push_labelled(lines, "oxidedb_bucket_size_bytes", &labels, x.size_bytes);
    push_labelled(lines, "oxidedb_bucket_ram_quota_bytes", &labels, x.ram_quota_mb * 1024 * 1024);
    push_labelled(lines, "oxidedb_bucket_vbuckets_total", &labels, x.vbuckets as u64);
    push_labelled(lines, "oxidedb_bucket_evicted_total", &labels, x.evicted);
    push_labelled(lines, "oxidedb_bucket_scopes_total", &labels, x.scopes);
    assert(line_views(lines@) =~= before + bucket_lines(*x));
}

fn push_all_bucket(lines: &mut Vec<Line>, list: &Vec<BucketMetrics>)
    requires
        forall|i: int| 0 <= i < list@.len() ==> (#[trigger] list@[i]).ram_quota_mb * 1024 * 1024 <= u64::MAX,
    ensures
        line_views(final(lines)@) == line_views(old(lines)@) + all_bucket_lines(
            list@,
            list@.len() as int,
        ),
{
    let ghost before = line_views(lines@);
    let mut k: usize = 0;
    assert(before + all_bucket_lines(list@, 0) =~= before);
    while k < list.len()
        invariant
            k <= list@.len(),
            forall|i: int| 0 <= i < list@.len() ==> (#[trigger] list@[i]).ram_quota_mb * 1024 * 1024 <= u64::MAX,
            line_views(lines@) == before + all_bucket_lines(list@, k as int),
        decreases list@.len() - k,
    {
        push_bucket(lines, &list[k]);
        k = k + 1;
        assert(line_views(lines@) =~= before + all_bucket_lines(list@, k as int));
    }
}

/// The labels of a node.
pub open spec fn node_labels(x: NodeMetrics) -> Seq<(Seq<char>, Seq<char>)> {
    seq![("node"@, x.name@), ("status"@, status_name(x.status))]
}

/// The values of a node.
pub open spec fn node_lines(x: NodeMetrics) -> Seq<LineView> {
    seq![
        labelled("oxidedb_cluster_node_status"@, node_labels(x), flag(x.status == NodeStatus::Healthy)),
    ]
}

/// The values of the first `k`.
pub open spec fn all_node_lines(list: Seq<NodeMetrics>, k: int) -> Seq<LineView>
    decreases k,
{
    if k <= 0 {
        Seq::empty()
    } else {
        all_node_lines(list, k - 1) + node_lines(list[k - 1])
    }
}

fn push_node(lines: &mut Vec<Line>, x: &NodeMetrics)
    ensures
        line_views(final(lines)@) == line_views(old(lines)@) + node_lines(*x),
{
    let ghost before = line_views(lines@);
    let mut labels = no_labels();
    let status = status_text(x.status);
    push_label(&mut labels, "node", x.name.as_str());
    push_label(&mut labels, "status", status);
    assert(label_views(labels@) =~= node_labels(*x));
    push_labelled(lines, "oxidedb_cluster_node_status", &labels, flag_value(x.status == NodeStatus::Healthy));
    assert(line_views(lines@) =~= before + node_lines(*x));
}

fn push_all_node(lines: &mut Vec<Line>, list: &Vec<NodeMetrics>)
    ensures
        line_views(final(lines)@) == line_views(old(lines)@) + all_node_lines(
            list@,
            list@.len() as int,
        ),
{
    let ghost before = line_views(lines@);
    let mut k: usize = 0;
    assert(before + all_node_lines(list@, 0) =~= before);
    while k < list.len()
        invariant
            k <= list@.len(),
            line_views(lines@) == before + all_node_lines(list@, k as int),
        decreases list@.len() - k,
    {
        push_node(lines, &list[k]);
        k = k + 1;
        assert(line_views(lines@) =~= before + all_node_lines(list@, k as int));
    }
}

/// The labels of a secondary index.
pub open spec fn index_labels(x: IndexMetrics) -> Seq<(Seq<char>, Seq<char>)> {
    seq![("bucket"@, x.bucket@), ("index"@, x.name@)]
}

/// The values of a secondary index.
pub open spec fn index_lines(x: IndexMetrics) -> Seq<LineView> {
    seq![
        labelled("oxidedb_index_entries"@, index_labels(x), x.entries as nat),
        labelled("oxidedb_index_state"@, index_labels(x), flag(x.online)),
    ]
}

/// The values of the first `k`.
pub open spec fn all_index_lines(list: Seq<IndexMetrics>, k: int) -> Seq<LineView>
    decreases k,
{
    if k <= 0 {
        Seq::empty()
    } else {
        all_index_lines(list, k - 1) + index_lines(list[k - 1])
    }
}

fn push_index(lines: &mut Vec<Line>, x: &IndexMetrics)
    ensures
        line_views(final(lines)@) == line_views(old(lines)@) + index_lines(*x),
{
    let ghost before = line_views(lines@);
    let mut labels = no_labels();
    push_label(&mut labels, "bucket", x.bucket.as_str());
    push_label(&mut labels, "index", x.name.as_str());
    assert(label_views(labels@) =~= index_labels(*x));
    push_labelled(lines, "oxidedb_index_entries", &labels, x.entries);
    push_labelled(lines, "oxidedb_index_state", &labels, flag_value(x.online));
    assert(line_views(lines@) =~= before + index_lines(*x));
}

fn push_all_index(lines: &mut Vec<Line>, list: &Vec<IndexMetrics>)
    ensures
        line_views(final(lines)@) == line_views(old(lines)@) + all_index_lines(
            list@,
            list@.len() as int,
        ),
{
    let ghost before = line_views(lines@);
    let mut k: usize = 0;
    assert(before + all_index_lines(list@, 0) =~= before);
    while k < list.len()
        invariant
            k <= list@.len(),
            line_views(lines@) == before + all_index_lines(list@, k as int),
        decreases list@.len() - k,
    {
        push_index(lines, &list[k]);
        k = k + 1;
        assert(line_views(lines@) =~= before + all_index_lines(list@, k as int));
    }
}

/// The labels of a search index.
pub open spec fn fts_labels(x: FtsMetrics) -> Seq<(Seq<char>, Seq<char>)> {
    seq![("bucket"@, x.bucket@), ("index"@, x.name@)]
}

/// The values of a search index.
pub open spec fn fts_lines(x: FtsMetrics) -> Seq<LineView> {
    seq![
        labelled("oxidedb_fts_index_documents"@, fts_labels(x), x.documents as nat),
        labelled("oxidedb_fts_index_terms"@, fts_labels(x), x.terms as nat),
    ]
}

/// The values of the first `k`.
pub open spec fn all_fts_lines(list: Seq<FtsMetrics>, k: int) -> Seq<LineView>
    decreases k,
{
    if k <= 0 {
        Seq::empty()
    } else {
        all_fts_lines(list, k - 1) + fts_lines(list[k - 1])
    }
}

fn push_fts(lines: &mut Vec<Line>, x: &FtsMetrics)
    ensures
        line_views(final(lines)@) == line_views(old(lines)@) + fts_lines(*x),
{
    let ghost before = line_views(lines@);
    let mut labels = no_labels();
    push_label(&mut labels, "bucket", x.bucket.as_str());
    push_label(&mut labels, "index", x.name.as_str());
    assert(label_views(labels@) =~= fts_labels(*x));
    push_labelled(lines, "oxidedb_fts_index_documents", &labels, x.documents);
    push_labelled(lines, "oxidedb_fts_index_terms", &labels, x.terms);
    assert(line_views(lines@) =~= before + fts_lines(*x));
}

fn push_all_fts(lines: &mut Vec<Line>, list: &Vec<FtsMetrics>)
    ensures
        line_views(final(lines)@) == line_views(old(lines)@) + all_fts_lines(
            list@,
            list@.len() as int,
        ),
{
    let ghost before = line_views(lines@);
    let mut k: usize = 0;
    assert(before + all_fts_lines(list@, 0) =~= before);
    while k < list.len()
        invariant
            k <= list@.len(),
            line_views(lines@) == before + all_fts_lines(list@, k as int),
        decreases list@.len() - k,
    {
        push_fts(lines, &list[k]);
        k = k + 1;
        assert(line_views(lines@) =~= before + all_fts_lines(list@, k as int));
    }
}

/// The labels of a log file.
pub open spec fn wal_file_labels(x: DiskMetrics) -> Seq<(Seq<char>, Seq<char>)> {
    seq![("bucket"@, x.bucket@)]
}

/// The values of a log file.
pub open spec fn wal_file_lines(x: DiskMetrics) -> Seq<LineView> {
    seq![
        labelled("oxidedb_persistence_wal_file_size_bytes"@, wal_file_labels(x), x.wal_file_size_bytes as nat),
    ]
}

/// The values of the first `k`.
pub open spec fn all_wal_file_lines(list: Seq<DiskMetrics>, k: int) -> Seq<LineView>
    decreases k,
{
    if k <= 0 {
        Seq::empty()
    } else {
        all_wal_file_lines(list, k - 1) + wal_file_lines(list[k - 1])
    }
}

fn push_wal_file(lines: &mut Vec<Line>, x: &DiskMetrics)
    ensures
        line_views(final(lines)@) == line_views(old(lines)@) + wal_file_lines(*x),
{
    let ghost before = line_views(lines@);
    let mut labels = no_labels();
    push_label(&mut labels, "bucket", x.bucket.as_str());
    assert(label_views(labels@) =~= wal_file_labels(*x));
    push_labelled(lines, "oxidedb_persistence_wal_file_size_bytes", &labels, x.wal_file_size_bytes);
    assert(line_views(lines@) =~= before + wal_file_lines(*x));
}

fn push_all_wal_file(lines: &mut Vec<Line>, list: &Vec<DiskMetrics>)
    ensures
        line_views(final(lines)@) == line_views(old(lines)@) + all_wal_file_lines(
            list@,
            list@.len() as int,
        ),
{
    let ghost before = line_views(lines@);
    let mut k: usize = 0;
    assert(before + all_wal_file_lines(list@, 0) =~= before);
    while k < list.len()
        invariant
            k <= list@.len(),
            line_views(lines@) == before + all_wal_file_lines(list@, k as int),
        decreases list@.len() - k,
    {
        push_wal_file(lines, &list[k]);
        k = k + 1;
        assert(line_views(lines@) =~= before + all_wal_file_lines(list@, k as int));
    }
}

/// The labels of a tree file.
pub open spec fn btree_labels(x: DiskMetrics) -> Seq<(Seq<char>, Seq<char>)> {
    seq![("bucket"@, x.bucket@)]
}

/// The values of a tree file.
pub open spec fn btree_lines(x: DiskMetrics) -> Seq<LineView> {
    seq![
        labelled("oxidedb_persistence_btree_file_size_bytes"@, btree_labels(x), x.btree_file_size_bytes as nat),
        labelled("oxidedb_persistence_btree_pages"@, btree_labels(x), x.btree_pages as nat),
        labelled("oxidedb_persistence_btree_records"@, btree_labels(x), x.btree_records as nat),
        labelled("oxidedb_persistence_btree_height"@, btree_labels(x), x.btree_height as nat),
    ]
}

/// The values of the first `k`.
pub open spec fn all_btree_lines(list: Seq<DiskMetrics>, k: int) -> Seq<LineView>
    decreases k,
{
    if k <= 0 {
        Seq::empty()
    } else {
        all_btree_lines(list, k - 1) + btree_lines(list[k - 1])
    }
}

fn push_btree(lines: &mut Vec<Line>, x: &DiskMetrics)
    ensures
        line_views(final(lines)@) == line_views(old(lines)@) + btree_lines(*x),
{
    let ghost before = line_views(lines@);
    let mut labels = no_labels();
    push_label(&mut labels, "bucket", x.bucket.as_str());
    assert(label_views(labels@) =~= btree_labels(*x));
    push_labelled(lines, "oxidedb_persistence_btree_file_size_bytes", &labels, x.btree_file_size_bytes);
    push_labelled(lines, "oxidedb_persistence_btree_pages", &labels, x.btree_pages);
    push_labelled(lines, "oxidedb_persistence_btree_records", &labels, x.btree_records);
    push_labelled(lines, "oxidedb_persistence_btree_height", &labels, x.btree_height);
    assert(line_views(lines@) =~= before + btree_lines(*x));
}

fn push_all_btree(lines: &mut Vec<Line>, list: &Vec<DiskMetrics>)
    ensures
        line_views(final(lines)@) == line_views(old(lines)@) + all_btree_lines(
            list@,
            list@.len() as int,
        ),
{
    let ghost before = line_views(lines@);
    let mut k: usize = 0;
    assert(before + all_btree_lines(list@, 0) =~= before);
    while k < list.len()
        invariant
            k <= list@.len(),
            line_views(lines@) == before + all_btree_lines(list@, k as int),
        decreases list@.len() - k,
    {
        push_btree(lines, &list[k]);
        k = k + 1;
        assert(line_views(lines@) =~= before + all_btree_lines(list@, k as int));
    }
}

/// The labels of a replication.
pub open spec fn xdcr_labels(x: XdcrMetrics) -> Seq<(Seq<char>, Seq<char>)> {
    seq![("id"@, x.id@), ("source"@, x.source_bucket@), ("target_cluster"@, x.target_cluster@), ("target_bucket"@, x.target_bucket@)]
}

/// The values of a replication.
pub open spec fn xdcr_lines(x: XdcrMetrics) -> Seq<LineView> {
    seq![
        labelled("oxidedb_xdcr_replication_status"@, xdcr_labels(x), flag(x.running)),
        labelled("oxidedb_xdcr_docs_replicated_total"@, xdcr_labels(x), x.docs_replicated as nat),
        labelled("oxidedb_xdcr_docs_failed_total"@, xdcr_labels(x), x.docs_failed as nat),
        labelled("oxidedb_xdcr_conflicts_total"@, xdcr_labels(x), x.conflicts as nat),
    ]
}

/// The values of the first `k`.
pub open spec fn all_xdcr_lines(list: Seq<XdcrMetrics>, k: int) -> Seq<LineView>
    decreases k,
{
    if k <= 0 {
        Seq::empty()
    } else {
        all_xdcr_lines(list, k - 1) + xdcr_lines(list[k - 1])
    }
}

fn push_xdcr(lines: &mut Vec<Line>, x: &XdcrMetrics)
    ensures
        line_views(final(lines)@) == line_views(old(lines)@) + xdcr_lines(*x),
{
    let ghost before = line_views(lines@);
    let mut labels = no_labels();
    push_label(&mut labels, "id", x.id.as_str());
    push_label(&mut labels, "source", x.source_bucket.as_str());
    push_label(&mut labels, "target_cluster", x.target_cluster.as_str());
    push_label(&mut labels, "target_bucket", x.target_bucket.as_str());
    assert(label_views(labels@) =~= xdcr_labels(*x));
    push_labelled(lines, "oxidedb_xdcr_replication_status", &labels, flag_value(x.running));
    push_labelled(lines, "oxidedb_xdcr_docs_replicated_total", &labels, x.docs_replicated);
    push_labelled(lines, "oxidedb_xdcr_docs_failed_total", &labels, x.docs_failed);
    push_labelled(lines, "oxidedb_xdcr_conflicts_total", &labels, x.conflicts);
    assert(line_views(lines@) =~= before + xdcr_lines(*x));
}

fn push_all_xdcr(lines: &mut Vec<Line>, list: &Vec<XdcrMetrics>)
    ensures
        line_views(final(lines)@) == line_views(old(lines)@) + all_xdcr_lines(
            list@,
            list@.len() as int,
        ),
{
    let ghost before = line_views(lines@);
    let mut k: usize = 0;
    assert(before + all_xdcr_lines(list@, 0) =~= before);
    while k < list.len()
        invariant
            k <= list@.len(),
            line_views(lines@) == before + all_xdcr_lines(list@, k as int),
        decreases list@.len() - k,
    {
        push_xdcr(lines, &list[k]);
        k = k + 1;
        assert(line_views(lines@) =~= before + all_xdcr_lines(list@, k as int));
    }
}

/// The labels of a stream.
pub open spec fn stream_labels(x: StreamMetrics) -> Seq<(Seq<char>, Seq<char>)> {
    seq![("id"@, x.id@), ("name"@, x.name@), ("bucket"@, x.bucket@)]
}

/// The values of a stream.
pub open spec fn stream_lines(x: StreamMetrics) -> Seq<LineView> {
    seq![
        labelled("oxidedb_dcp_stream_active"@, stream_labels(x), flag(x.active)),
        labelled("oxidedb_dcp_stream_events_total"@, stream_labels(x), x.events_streamed as nat),
    ]
}

/// The values of the first `k`.
pub open spec fn all_stream_lines(list: Seq<StreamMetrics>, k: int) -> Seq<LineView>
    decreases k,
{
    if k <= 0 {
        Seq::empty()
    } else {
        all_stream_lines(list, k - 1) + stream_lines(list[k - 1])
    }
}

fn push_stream(lines: &mut Vec<Line>, x: &StreamMetrics)
    ensures
        line_views(final(lines)@) == line_views(old(lines)@) + stream_lines(*x),
{
    let ghost before = line_views(lines@);
    let mut labels = no_labels();
    push_label(&mut labels, "id", x.id.as_str());
    push_label(&mut labels, "name", x.name.as_str());
    push_label(&mut labels, "bucket", x.bucket.as_str());
    assert(label_views(labels@) =~= stream_labels(*x));
    push_labelled(lines, "oxidedb_dcp_stream_active", &labels, flag_value(x.active));
    push_labelled(lines, "oxidedb_dcp_stream_events_total", &labels, x.events_streamed);
    assert(line_views(lines@) =~= before + stream_lines(*x));
}

fn push_all_stream(lines: &mut Vec<Line>, list: &Vec<StreamMetrics>)
    ensures
        line_views(final(lines)@) == line_views(old(lines)@) + all_stream_lines(
            list@,
            list@.len() as int,
        ),
{
    let ghost before = line_views(lines@);
    let mut k: usize = 0;
    assert(before + all_stream_lines(list@, 0) =~= before);
    while k < list.len()
        invariant
            k <= list@.len(),
            line_views(lines@) == before + all_stream_lines(list@, k as int),
        decreases list@.len() - k,
    {
        push_stream(lines, &list[k]);
        k = k + 1;
        assert(line_views(lines@) =~= before + all_stream_lines(list@, k as int));
    }
}

/// The server itself.
pub open spec fn server_section(x: MetricsSnapshot) -> Seq<LineView> {
    seq![
        gauge(
            "oxidedb_info"@,
            "OxideDB build information"@,
        ),
        labelled(
            "oxidedb_info"@,
            seq![("version"@, "0.5.0"@), ("edition"@, "2021"@)],
            1,
        ),
        gauge(
            "oxidedb_up"@,
            "Whether OxideDB is up (always 1)"@,
        ),
        plain("oxidedb_up"@, 1),
        gauge(
            "oxidedb_uptime_seconds"@,
            "Seconds since server start"@,
        ),
        plain("oxidedb_uptime_seconds"@, x.uptime_seconds as nat),
    ]
}

fn push_server_section(lines: &mut Vec<Line>, x: &MetricsSnapshot)
    ensures
        line_views(final(lines)@) == line_views(old(lines)@) + server_section(*x),
{
    let ghost before = line_views(lines@);
    push_gauge(
        lines,
        "oxidedb_info",
        "OxideDB build information",
    );
    let mut labels = no_labels();
    push_label(&mut labels, "version", "0.5.0");
    push_label(&mut labels, "edition", "2021");
    assert(label_views(labels@) =~= seq![("version"@, "0.5.0"@), ("edition"@, "2021"@)]);
    push_labelled(lines, "oxidedb_info", &labels, 1);
    push_gauge(
        lines,
        "oxidedb_up",
        "Whether OxideDB is up (always 1)",
    );
    push_plain(lines, "oxidedb_up", 1);
    push_gauge(
        lines,
        "oxidedb_uptime_seconds",
        "Seconds since server start",
    );
    push_plain(lines, "oxidedb_uptime_seconds", x.uptime_seconds);
    assert(line_views(lines@) =~= before + server_section(*x));
}

/// The buckets.
pub open spec fn buckets_section(x: MetricsSnapshot) -> Seq<LineView> {
    seq![
        gauge(
            "oxidedb_buckets_total"@,
            "Total number of buckets"@,
        ),
        plain("oxidedb_buckets_total"@, x.buckets_total as nat),
        gauge(
            "oxidedb_bucket_documents_total"@,
            "Number of live documents in a bucket"@,
        ),
        gauge(
            "oxidedb_bucket_size_bytes"@,
            "Approximate in-memory size of a bucket in bytes"@,
        ),
        gauge(
            "oxidedb_bucket_ram_quota_bytes"@,
            "RAM quota for a bucket in bytes"@,
        ),
        gauge(
            "oxidedb_bucket_vbuckets_total"@,
            "Number of vBuckets in a bucket"@,
        ),
        gauge(
            "oxidedb_bucket_evicted_total"@,
            "Total items evicted from a bucket"@,
        ),
        gauge(
            "oxidedb_bucket_scopes_total"@,
            "Number of scopes in a bucket"@,
        ),
    ] + all_bucket_lines(x.buckets@, x.buckets@.len() as int)
}

fn push_buckets_section(lines: &mut Vec<Line>, x: &MetricsSnapshot)
    requires
        quotas_fit(x.buckets@),
    ensures
        line_views(final(lines)@) == line_views(old(lines)@) + buckets_section(*x),
{
    let ghost before = line_views(lines@);
    push_gauge(
        lines,
        "oxidedb_buckets_total",
        "Total number of buckets",
    );
    push_plain(lines, "oxidedb_buckets_total", x.buckets_total);
    push_gauge(
        lines,
        "oxidedb_bucket_documents_total",
        "Number of live documents in a bucket",
    );
    push_gauge(
        lines,
        "oxidedb_bucket_size_bytes",
        "Approximate in-memory size of a bucket in bytes",
    );
    push_gauge(
        lines,
        "oxidedb_bucket_ram_quota_bytes",
        "RAM quota for a bucket in bytes",
    );
    push_gauge(
        lines,
        "oxidedb_bucket_vbuckets_total",
        "Number of vBuckets in a bucket",
    );
    push_gauge(
        lines,
        "oxidedb_bucket_evicted_total",
        "Total items evicted from a bucket",
    );
    push_gauge(
        lines,
        "oxidedb_bucket_scopes_total",
        "Number of scopes in a bucket",
    );
    push_all_bucket(lines, &x.buckets);
    assert(line_views(lines@) =~= before + buckets_section(*x));
}

/// The cluster.
pub open spec fn cluster_section(x: MetricsSnapshot) -> Seq<LineView> {
    seq![
        gauge(
            "oxidedb_cluster_nodes_total"@,
            "Total number of cluster nodes"@,
        ),
        plain("oxidedb_cluster_nodes_total"@, x.nodes@.len()),
        gauge(
            "oxidedb_cluster_node_status"@,
            "Node status (1=healthy, 0=unhealthy/warmup/inactive)"@,
        ),
    ] + all_node_lines(x.nodes@, x.nodes@.len() as int) + seq![
        gauge(
            "oxidedb_cluster_rebalance_in_progress"@,
            "Whether a rebalance is currently in progress (1/0)"@,
        ),
        plain("oxidedb_cluster_rebalance_in_progress"@, flag(x.rebalance_in_progress)),
        gauge(
            "oxidedb_cluster_rebalance_progress_percent"@,
            "Current rebalance progress percentage"@,
        ),
        LineView::Sample {
            name: "oxidedb_cluster_rebalance_progress_percent"@,
            labels: Seq::empty(),
            value: x.rebalance_percent@,
        },
        gauge(
            "oxidedb_cluster_partition_map_revision"@,
            "Current partition map revision"@,
        ),
        plain("oxidedb_cluster_partition_map_revision"@, x.map_revision as nat),
        gauge(
            "oxidedb_cluster_vbuckets_total"@,
            "Total number of vBuckets in the partition map"@,
        ),
        plain("oxidedb_cluster_vbuckets_total"@, x.map_vbuckets as nat),
    ]
}

fn push_cluster_section(lines: &mut Vec<Line>, x: &MetricsSnapshot)
    ensures
        line_views(final(lines)@) == line_views(old(lines)@) + cluster_section(*x),
{
    let ghost before = line_views(lines@);
    push_gauge(
        lines,
        "oxidedb_cluster_nodes_total",
        "Total number of cluster nodes",
    );
    push_plain(lines, "oxidedb_cluster_nodes_total", x.nodes.len() as u64);
    push_gauge(
        lines,
        "oxidedb_cluster_node_status",
        "Node status (1=healthy, 0=unhealthy/warmup/inactive)",
    );
    push_all_node(lines, &x.nodes);
    push_gauge(
        lines,
        "oxidedb_cluster_rebalance_in_progress",
        "Whether a rebalance is currently in progress (1/0)",
    );
    push_plain(lines, "oxidedb_cluster_rebalance_in_progress", flag_value(x.rebalance_in_progress));
    push_gauge(
        lines,
        "oxidedb_cluster_rebalance_progress_percent",
        "Current rebalance progress percentage",
    );
    push_text(lines, "oxidedb_cluster_rebalance_progress_percent", x.rebalance_percent.as_str());
    push_gauge(
        lines,
        "oxidedb_cluster_partition_map_revision",
        "Current partition map revision",
    );
    push_plain(lines, "oxidedb_cluster_partition_map_revision", x.map_revision);
    push_gauge(
        lines,
        "oxidedb_cluster_vbuckets_total",
        "Total number of vBuckets in the partition map",
    );
    push_plain(lines, "oxidedb_cluster_vbuckets_total", x.map_vbuckets as u64);
    assert(line_views(lines@) =~= before + cluster_section(*x));
}

/// The secondary indexes.
pub open spec fn index_section(x: MetricsSnapshot) -> Seq<LineView> {
    seq![
        gauge(
            "oxidedb_indexes_total"@,
            "Total number of GSI indexes"@,
        ),
        plain("oxidedb_indexes_total"@, x.indexes@.len()),
        gauge(
            "oxidedb_index_entries"@,
            "Number of entries in a secondary index"@,
        ),
        gauge(
            "oxidedb_index_state"@,
            "Index state (1=Online, 0=other)"@,
        ),
    ] + all_index_lines(x.indexes@, x.indexes@.len() as int)
}

fn push_index_section(lines: &mut Vec<Line>, x: &MetricsSnapshot)
    ensures
        line_views(final(lines)@) == line_views(old(lines)@) + index_section(*x),
{
    let ghost before = line_views(lines@);
    push_gauge(
        lines,
        "oxidedb_indexes_total",
        "Total number of GSI indexes",
    );
    push_plain(lines, "oxidedb_indexes_total", x.indexes.len() as u64);
    push_gauge(
        lines,
        "oxidedb_index_entries",
        "Number of entries in a secondary index",
    );
    push_gauge(
        lines,
        "oxidedb_index_state",
        "Index state (1=Online, 0=other)",
    );
    push_all_index(lines, &x.indexes);
    assert(line_views(lines@) =~= before + index_section(*x));
}

/// The search indexes.
pub open spec fn fts_section(x: MetricsSnapshot) -> Seq<LineView> {
    seq![
        gauge(
            "oxidedb_fts_indexes_total"@,
            "Total number of FTS indexes"@,
        ),
        plain("oxidedb_fts_indexes_total"@, x.fts_indexes@.len()),
        gauge(
            "oxidedb_fts_index_documents"@,
            "Number of documents in an FTS index"@,
        ),
        gauge(
            "oxidedb_fts_index_terms"@,
            "Number of unique terms in an FTS index"@,
        ),
    ] + all_fts_lines(x.fts_indexes@, x.fts_indexes@.len() as int)
}

fn push_fts_section(lines: &mut Vec<Line>, x: &MetricsSnapshot)
    ensures
        line_views(final(lines)@) == line_views(old(lines)@) + fts_section(*x),
{
    let ghost before = line_views(lines@);
    push_gauge(
        lines,
        "oxidedb_fts_indexes_total",
        "Total number of FTS indexes",
    );
    push_plain(lines, "oxidedb_fts_indexes_total", x.fts_indexes.len() as u64);
    push_gauge(
        lines,
        "oxidedb_fts_index_documents",
        "Number of documents in an FTS index",
    );
    push_gauge(
        lines,
        "oxidedb_fts_index_terms",
        "Number of unique terms in an FTS index",
    );
    push_all_fts(lines, &x.fts_indexes);
    assert(line_views(lines@) =~= before + fts_section(*x));
}

/// The write-ahead log and what is on disk.
pub open spec fn wal_section(x: WalMetrics) -> Seq<LineView> {
    seq![
        gauge(
            "oxidedb_wal_buffer_pending_ops"@,
            "Number of ops pending in WAL buffer"@,
        ),
        plain("oxidedb_wal_buffer_pending_ops"@, x.pending_ops as nat),
        gauge(
            "oxidedb_wal_buffer_pending_bytes"@,
            "Bytes pending in WAL buffer"@,
        ),
        plain("oxidedb_wal_buffer_pending_bytes"@, x.pending_bytes as nat),
        counter(
            "oxidedb_wal_buffer_total_buffered"@,
            "Total operations buffered (lifetime)"@,
        ),
        plain("oxidedb_wal_buffer_total_buffered"@, x.total_buffered as nat),
        counter(
            "oxidedb_wal_buffer_total_flushes"@,
            "Total WAL flushes performed (lifetime)"@,
        ),
        plain("oxidedb_wal_buffer_total_flushes"@, x.total_flushes as nat),
        gauge(
            "oxidedb_wal_ms_since_flush"@,
            "Milliseconds since last WAL flush"@,
        ),
        plain("oxidedb_wal_ms_since_flush"@, x.ms_since_flush as nat),
        gauge(
            "oxidedb_wal_config_max_ops"@,
            "WAL flush trigger: max ops threshold"@,
        ),
        plain("oxidedb_wal_config_max_ops"@, x.config_max_ops as nat),
        gauge(
            "oxidedb_wal_config_max_bytes"@,
            "WAL flush trigger: max bytes threshold"@,
        ),
        plain("oxidedb_wal_config_max_bytes"@, x.config_max_bytes as nat),
        gauge(
            "oxidedb_persistence_wal_file_size_bytes"@,
            "WAL file size per bucket in bytes"@,
        ),
    ] + all_wal_file_lines(x.buckets@, x.buckets@.len() as int) + seq![
        gauge(
            "oxidedb_persistence_btree_file_size_bytes"@,
            "B+ tree file size per bucket in bytes"@,
        ),
        gauge(
            "oxidedb_persistence_btree_pages"@,
            "B+ tree page count per bucket"@,
        ),
        gauge(
            "oxidedb_persistence_btree_records"@,
            "B+ tree record count per bucket"@,
        ),
        gauge(
            "oxidedb_persistence_btree_height"@,
            "B+ tree height per bucket"@,
        ),
    ] + all_btree_lines(x.buckets@, x.buckets@.len() as int)
}

fn push_wal_section(lines: &mut Vec<Line>, x: &WalMetrics)
    ensures
        line_views(final(lines)@) == line_views(old(lines)@) + wal_section(*x),
{
    let ghost before = line_views(lines@);
    push_gauge(
        lines,
        "oxidedb_wal_buffer_pending_ops",
        "Number of ops pending in WAL buffer",
    );
    push_plain(lines, "oxidedb_wal_buffer_pending_ops", x.pending_ops);
    push_gauge(
        lines,
        "oxidedb_wal_buffer_pending_bytes",
        "Bytes pending in WAL buffer",
    );
    push_plain(lines, "oxidedb_wal_buffer_pending_bytes", x.pending_bytes);
    push_counter(
        lines,
        "oxidedb_wal_buffer_total_buffered",
        "Total operations buffered (lifetime)",
    );
    push_plain(lines, "oxidedb_wal_buffer_total_buffered", x.total_buffered);
    push_counter(
        lines,
        "oxidedb_wal_buffer_total_flushes",
        "Total WAL flushes performed (lifetime)",
    );
    push_plain(lines, "oxidedb_wal_buffer_total_flushes", x.total_flushes);
    push_gauge(
        lines,
        "oxidedb_wal_ms_since_flush",
        "Milliseconds since last WAL flush",
    );
    push_plain(lines, "oxidedb_wal_ms_since_flush", x.ms_since_flush);
    push_gauge(
        lines,
        "oxidedb_wal_config_max_ops",
        "WAL flush trigger: max ops threshold",
    );
    push_plain(lines, "oxidedb_wal_config_max_ops", x.config_max_ops);
    push_gauge(
        lines,
        "oxidedb_wal_config_max_bytes",
        "WAL flush trigger: max bytes threshold",
    );
    push_plain(lines, "oxidedb_wal_config_max_bytes", x.config_max_bytes);
    push_gauge(
        lines,
        "oxidedb_persistence_wal_file_size_bytes",
        "WAL file size per bucket in bytes",
    );
    push_all_wal_file(lines, &x.buckets);
    push_gauge(
        lines,
        "oxidedb_persistence_btree_file_size_bytes",
        "B+ tree file size per bucket in bytes",
    );
    push_gauge(
        lines,
        "oxidedb_persistence_btree_pages",
        "B+ tree page count per bucket",
    );
    push_gauge(
        lines,
        "oxidedb_persistence_btree_records",
        "B+ tree record count per bucket",
    );
    push_gauge(
        lines,
        "oxidedb_persistence_btree_height",
        "B+ tree height per bucket",
    );
    push_all_btree(lines, &x.buckets);
    assert(line_views(lines@) =~= before + wal_section(*x));
}

/// The replications to other clusters.
pub open spec fn xdcr_section(x: MetricsSnapshot) -> Seq<LineView> {
    seq![
        gauge(
            "oxidedb_xdcr_replications_total"@,
            "Total number of XDCR replications"@,
        ),
        plain("oxidedb_xdcr_replications_total"@, x.replications@.len()),
        gauge(
            "oxidedb_xdcr_replication_status"@,
            "XDCR replication status (1=Running, 0=other)"@,
        ),
        counter(
            "oxidedb_xdcr_docs_replicated_total"@,
            "Total documents replicated per replication"@,
        ),
        counter(
            "oxidedb_xdcr_docs_failed_total"@,
            "Total documents that failed replication"@,
        ),
        counter(
            "oxidedb_xdcr_conflicts_total"@,
            "Total XDCR conflicts per replication"@,
        ),
    ] + all_xdcr_lines(x.replications@, x.replications@.len() as int)
}

fn push_xdcr_section(lines: &mut Vec<Line>, x: &MetricsSnapshot)
    ensures
        line_views(final(lines)@) == line_views(old(lines)@) + xdcr_section(*x),
{
    let ghost before = line_views(lines@);
    push_gauge(
        lines,
        "oxidedb_xdcr_replications_total",
        "Total number of XDCR replications",
    );
    push_plain(lines, "oxidedb_xdcr_replications_total", x.replications.len() as u64);
    push_gauge(
        lines,
        "oxidedb_xdcr_replication_status",
        "XDCR replication status (1=Running, 0=other)",
    );
    push_counter(
        lines,
        "oxidedb_xdcr_docs_replicated_total",
        "Total documents replicated per replication",
    );
    push_counter(
        lines,
        "oxidedb_xdcr_docs_failed_total",
        "Total documents that failed replication",
    );
    push_counter(
        lines,
        "oxidedb_xdcr_conflicts_total",
        "Total XDCR conflicts per replication",
    );
    push_all_xdcr(lines, &x.replications);
    assert(line_views(lines@) =~= before + xdcr_section(*x));
}

/// The streams of changes.
pub open spec fn dcp_section(x: MetricsSnapshot) -> Seq<LineView> {
    seq![
        gauge(
            "oxidedb_dcp_streams_total"@,
            "Total number of DCP streams"@,
        ),
        plain("oxidedb_dcp_streams_total"@, x.streams@.len()),
        gauge(
            "oxidedb_dcp_stream_active"@,
            "Whether a DCP stream is active (1/0)"@,
        ),
        counter(
            "oxidedb_dcp_stream_events_total"@,
            "Total events streamed per DCP stream"@,
        ),
    ] + all_stream_lines(x.streams@, x.streams@.len() as int)
}

fn push_dcp_section(lines: &mut Vec<Line>, x: &MetricsSnapshot)
    ensures
        line_views(final(lines)@) == line_views(old(lines)@) + dcp_section(*x),
{
    let ghost before = line_views(lines@);
    push_gauge(
        lines,
        "oxidedb_dcp_streams_total",
        "Total number of DCP streams",
    );
    push_plain(lines, "oxidedb_dcp_streams_total", x.streams.len() as u64);
    push_gauge(
        lines,
        "oxidedb_dcp_stream_active",
        "Whether a DCP stream is active (1/0)",
    );
    push_counter(
        lines,
        "oxidedb_dcp_stream_events_total",
        "Total events streamed per DCP stream",
    );
    push_all_stream(lines, &x.streams);
    assert(line_views(lines@) =~= before + dcp_section(*x));
}

/// Transactions, audit, queries and users.
pub open spec fn other_section(x: MetricsSnapshot) -> Seq<LineView> {
    seq![
        gauge(
            "oxidedb_transactions_active"@,
            "Number of currently active transactions"@,
        ),
        plain("oxidedb_transactions_active"@, x.active_transactions as nat),
        gauge(
            "oxidedb_audit_events_total"@,
            "Total audit events in ring buffer"@,
        ),
        plain("oxidedb_audit_events_total"@, x.audit_events as nat),
        gauge(
            "oxidedb_audit_enabled"@,
            "Whether audit logging is enabled (1/0)"@,
        ),
        plain("oxidedb_audit_enabled"@, flag(x.audit_enabled)),
        gauge(
            "oxidedb_prepared_statements_total"@,
            "Number of cached prepared statements"@,
        ),
        plain("oxidedb_prepared_statements_total"@, x.prepared_statements as nat),
        gauge(
            "oxidedb_rbac_users_total"@,
            "Number of RBAC users"@,
        ),
        plain("oxidedb_rbac_users_total"@, x.users as nat),
    ]
}

fn push_other_section(lines: &mut Vec<Line>, x: &MetricsSnapshot)
    ensures
        line_views(final(lines)@) == line_views(old(lines)@) + other_section(*x),
{
    let ghost before = line_views(lines@);
    push_gauge(
        lines,
        "oxidedb_transactions_active",
        "Number of currently active transactions",
    );
    push_plain(lines, "oxidedb_transactions_active", x.active_transactions);
    push_gauge(
        lines,
        "oxidedb_audit_events_total",
        "Total audit events in ring buffer",
    );
    push_plain(lines, "oxidedb_audit_events_total", x.audit_events);
    push_gauge(
        lines,
        "oxidedb_audit_enabled",
        "Whether audit logging is enabled (1/0)",
    );
    push_plain(lines, "oxidedb_audit_enabled", flag_value(x.audit_enabled));
    push_gauge(
        lines,
        "oxidedb_prepared_statements_total",
        "Number of cached prepared statements",
    );
    push_plain(lines, "oxidedb_prepared_statements_total", x.prepared_statements);
    push_gauge(
        lines,
        "oxidedb_rbac_users_total",
        "Number of RBAC users",
    );
    push_plain(lines, "oxidedb_rbac_users_total", x.users);
    assert(line_views(lines@) =~= before + other_section(*x));
}

/// All lines.
pub open spec fn metrics_lines(x: MetricsSnapshot) -> Seq<LineView> {
    server_section(x) + buckets_section(x) + cluster_section(x) + index_section(x) + fts_section(x) + (match x.wal {
        Some(w) => wal_section(w),
        None => Seq::empty(),
    }) + xdcr_section(x) + dcp_section(x) + other_section(x)
}

/// The state of the server as text.
pub fn prometheus_metrics(x: &MetricsSnapshot) -> (r: String)
    requires
        quotas_fit(x.buckets@),
    ensures
        r@ == lines_text(metrics_lines(*x), metrics_lines(*x).len() as int),
{
    let mut lines: Vec<Line> = Vec::new();
    assert(line_views(lines@) =~= Seq::<LineView>::empty());
    push_server_section(&mut lines, x);
    push_buckets_section(&mut lines, x);
    push_cluster_section(&mut lines, x);
    push_index_section(&mut lines, x);
    push_fts_section(&mut lines, x);
    match &x.wal {
        Some(w) => {
            push_wal_section(&mut lines, w);
        },
        None => {
            assert(line_views(lines@) + Seq::<LineView>::empty() =~= line_views(lines@));
        },
    }
    push_xdcr_section(&mut lines, x);
    push_dcp_section(&mut lines, x);
    push_other_section(&mut lines, x);
    assert(line_views(lines@) =~= metrics_lines(*x));
    render(&lines)
}

/// The type of the text, as it is said in the header of the answer.
pub fn content_type() -> (r: &'static str)
    ensures
        r@ == "text/plain; version=0.0.4; charset=utf-8"@,
{
    "text/plain; version=0.0.4; charset=utf-8"
}

} // verus!
