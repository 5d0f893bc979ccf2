//! What a server sets up when it starts, and what it does again and again.

use crate::clock::utc_now;
use crate::cluster::chronicle::Chronicle;
use crate::config::{address, address_of, ServerConfig};
use crate::text::{dec, opt_text, push_dec};
use vstd::prelude::*;
use vstd::string::*;

verus! {

/// Where documents are kept on disk, if they are.
pub fn storage_dir(config: &ServerConfig) -> (r: Option<String>)
    ensures
        opt_text(r) == if config.enable_persistence {
            Some(config.data_dir@)
        } else {
            None
        },
{
    if config.enable_persistence {
        Some(config.data_dir.clone())
    } else {
        None
    }
}

/// How connections are encrypted.
#[derive(Clone, Copy, Debug, PartialEq, Eq, Structural)]
pub enum TlsPlan {
    /// Not at all.
    Off,
    /// Not at all, though it was asked for: certificate or key are not named.
    PathsMissing,
    /// With the certificate and the key that are named.
    Load,
}

/// How connections are encrypted.
pub fn plan_tls(config: &ServerConfig) -> (r: TlsPlan)
    ensures
        r == if !config.tls_enabled {
            TlsPlan::Off
        } else if config.tls_cert_path@.len() == 0 || config.tls_key_path@.len() == 0 {
            TlsPlan::PathsMissing
        } else {
            TlsPlan::Load
        },
{
    if !config.tls_enabled {
        TlsPlan::Off
    } else if config.tls_cert_path.as_str().is_empty() || config.tls_key_path.as_str().is_empty() {
        TlsPlan::PathsMissing
    } else {
        TlsPlan::Load
    }
}

/// The port on which clients that encrypt are served: that of the others where none is named.
pub fn tls_port(config: &ServerConfig) -> (r: u16)
    ensures
        r == if config.tls_memcached_port == 0 {
            config.memcached_port
        } else {
            config.tls_memcached_port
        },
{
    if config.tls_memcached_port == 0 {
        config.memcached_port
    } else {
        config.tls_memcached_port
    }
}

/// What is done again and again.
#[derive(Clone, Copy, Debug, PartialEq, Eq, Structural)]
pub enum Task {
    /// Expired documents are removed.
    ExpireDocuments,
    /// Changes are sent to other clusters.
    ReplicateToClusters,
    /// The write-ahead log is flushed, if it is due.
    FlushLog,
    /// The log is merged into the data files.
    Compact,
    /// The other nodes are asked whether they are alive, and failed ones are failed over.
    CheckHealth,
    /// Abandoned and old transactions are removed.
    CleanTransactions,
    /// Memory is freed in buckets that are near their quota.
    Evict,
    /// Documents are moved after a rebalance.
    MoveVBuckets,
    /// Durable writes whose time is up are forgotten.
    CleanDurability,
    /// The log of configuration changes is kept short.
    MaintainChronicle,
}

/// A task and how many milliseconds lie between two runs.
#[derive(Clone, Copy, Debug, PartialEq, Eq, Structural)]
pub struct Schedule {
    pub task: Task,
    pub interval: Interval,
}

/// The time between two runs.
#[derive(Clone, Copy, Debug, PartialEq, Eq, Structural)]
pub enum Interval {
    Seconds(u64),
    Milliseconds(u64),
}

/// What runs again and again, and how often: what concerns the disk only where documents are kept
/// there.
pub open spec fn schedules_of(config: ServerConfig) -> Seq<Schedule> {
    let s = |task: Task, n: u64| Schedule { task, interval: Interval::Seconds(n) };
    let ms = |task: Task, n: u64| Schedule { task, interval: Interval::Milliseconds(n) };
    let first = Seq::empty()
        .push(s(Task::ExpireDocuments, config.ttl_check_interval_secs))
        .push(ms(Task::ReplicateToClusters, config.xdcr_replication_interval_ms));
    let second = if config.enable_persistence {
        first.push(ms(Task::FlushLog, 50)).push(
            s(Task::Compact, config.btree_compact_interval_secs),
        )
    } else {
        first
    };
    second
        .push(s(Task::CheckHealth, 5))
        .push(s(Task::CleanTransactions, 5))
        .push(s(Task::Evict, config.eviction_check_interval_secs))
        .push(s(Task::MoveVBuckets, 2))
        .push(ms(Task::CleanDurability, 100))
        .push(s(Task::MaintainChronicle, 10))
}

fn push_seconds(out: &mut Vec<Schedule>, task: Task, n: u64)
    ensures
        final(out)@ == old(out)@.push((Schedule { task, interval: Interval::Seconds(n) })),
{
    out.push(Schedule { task, interval: Interval::Seconds(n) });
}

fn push_milliseconds(out: &mut Vec<Schedule>, task: Task, n: u64)
    ensures
        final(out)@ == old(out)@.push((Schedule { task, interval: Interval::Milliseconds(n) })),
{
    out.push(Schedule { task, interval: Interval::Milliseconds(n) });
}

/// What runs again and again, and how often.
pub fn start_background_tasks(config: &ServerConfig) -> (r: Vec<Schedule>)
    ensures
        r@ == schedules_of(*config),
{
    let mut out: Vec<Schedule> = Vec::new();
    push_seconds(&mut out, Task::ExpireDocuments, config.ttl_check_interval_secs);
    push_milliseconds(&mut out, Task::ReplicateToClusters, config.xdcr_replication_interval_ms);
    if config.enable_persistence {
        push_milliseconds(&mut out, Task::FlushLog, 50);
        push_seconds(&mut out, Task::Compact, config.btree_compact_interval_secs);
    }
    push_seconds(&mut out, Task::CheckHealth, 5);
    push_seconds(&mut out, Task::CleanTransactions, 5);
    push_seconds(&mut out, Task::Evict, config.eviction_check_interval_secs);
    push_seconds(&mut out, Task::MoveVBuckets, 2);
    push_milliseconds(&mut out, Task::CleanDurability, 100);
    push_seconds(&mut out, Task::MaintainChronicle, 10);
    out
}

/// The quota of a bucket in bytes; zero stands for no limit.
pub open spec fn quota_bytes(ram_quota_mb: u64) -> int {
    ram_quota_mb * 1024 * 1024
}

/// Down to how many bytes a bucket is emptied, if it is: where it uses more than nine tenths of its
/// quota, to eight tenths.
pub open spec fn eviction_goal(ram_quota_mb: u64, used: usize) -> Option<int> {
    let quota = quota_bytes(ram_quota_mb);
    if quota > 0 && used > quota * 90 / 100 {
        Some(quota * 80 / 100)
    } else {
        None
    }
}

/// Down to how many bytes a bucket is emptied, if it is.
pub fn eviction_target(ram_quota_mb: u64, used: usize) -> (r: Option<usize>)
    requires
        quota_bytes(ram_quota_mb) * 90 <= usize::MAX,
    ensures
        match r {
            Some(target) => eviction_goal(ram_quota_mb, used) == Some(target as int),
            None => eviction_goal(ram_quota_mb, used) is None,
        },
{
    let quota: usize = ram_quota_mb as usize * 1024 * 1024;
    if quota == 0 {
        return None;
    }
    if used > quota * 90 / 100 {
        Some(quota * 80 / 100)
    } else {
        None
    }
}

/// A bucket is emptied only where it is fuller than it will be, and below its quota then.
pub proof fn law_eviction_frees_memory(ram_quota_mb: u64, used: usize)
    requires
        eviction_goal(ram_quota_mb, used) is Some,
    ensures
        0 <= eviction_goal(ram_quota_mb, used)->0 < used,
        eviction_goal(ram_quota_mb, used)->0 < quota_bytes(ram_quota_mb),
{
}

/// The word for a setting that is on or off.
pub open spec fn on_off(b: bool) -> Seq<char> {
    if b {
        "enabled"@
    } else {
        "disabled"@
    }
}

/// The settings that are printed when a server starts.
pub open spec fn banner_text(c: ServerConfig) -> Seq<char> {
    "\n  Node:        "@ + c.node_name@
        + "\n  REST API:    "@ + address_of(c.host@, c.port)
        + "\n  KV (MC):     "@ + address_of(c.host@, c.memcached_port)
        + "\n  Data Dir:    "@ + c.data_dir@
        + "\n  vBuckets:    "@ + dec(c.num_vbuckets as nat)
        + "\n  Persistence: "@ + on_off(c.enable_persistence)
        + "\n  Storage:     B+ Tree (4KB pages, binary)"@
        + "\n  WAL Buffer:  "@ + dec(c.wal_buffer_max_ops as nat) + "ops / "@
        + dec(c.wal_buffer_max_bytes as nat) + "B / "@ + dec(c.wal_flush_interval_ms as nat)
        + "ms (dual-trigger)"@
        + "\n  SDK:         Couchbase SDK compatible (port "@ + dec(c.memcached_port as nat) + ")"@
        + "\n  Replication: DCP intra-cluster (active → replica)"@
        + "\n  Consensus:   Chronicle (metadata) + DCP (data)"@
        + "\n  Durability:  None | Majority | MajorityAndPersist | PersistToMajority"@
        + "\n  Groups:      Server Groups (rack/zone awareness)"@
        + "\n  CertAuth:    "@ + (if c.client_cert_auth {
        "x509 cert auth enabled"@
    } else {
        "password auth"@
    }) + " \n  ClusterEnc:  "@ + (if c.cluster_encryption {
        "enabled (node-to-node TLS)"@
    } else {
        "disabled"@
    }) + "\n  TLS:         "@ + on_off(c.tls_enabled) + " "@ + (if c.tls_enabled {
        "(MC TLS port: "@ + dec(c.tls_memcached_port as nat) + ")"@
    } else {
        Seq::empty()
    }) + "\n"@
}

fn on_off_text(b: bool) -> (r: &'static str)
    ensures
        r@ == on_off(b),
{
    if b {
        "enabled"
    } else {
        "disabled"
    }
}

/// The settings that are printed when a server starts.
pub fn banner_settings(c: &ServerConfig) -> (r: String)
    ensures
        r@ == banner_text(*c),
{
    let mut out = "\n  Node:        ".to_owned();
    out.append(c.node_name.as_str());
    out.append("\n  REST API:    ");
    out.append(address(c.host.as_str(), c.port).as_str());
    out.append("\n  KV (MC):     ");
    out.append(address(c.host.as_str(), c.memcached_port).as_str());
    out.append("\n  Data Dir:    ");
    out.append(c.data_dir.as_str());
    out.append("\n  vBuckets:    ");
    push_dec(&mut out, c.num_vbuckets as u64);
    out.append("\n  Persistence: ");
    out.append(on_off_text(c.enable_persistence));
    out.append("\n  Storage:     B+ Tree (4KB pages, binary)");
    out.append("\n  WAL Buffer:  ");
    push_dec(&mut out, c.wal_buffer_max_ops as u64);
    out.append("ops / ");
    push_dec(&mut out, c.wal_buffer_max_bytes as u64);
    out.append("B / ");
    push_dec(&mut out, c.wal_flush_interval_ms);
    out.append("ms (dual-trigger)");
    out.append("\n  SDK:         Couchbase SDK compatible (port ");
    push_dec(&mut out, c.memcached_port as u64);
    out.append(")");
    out.append("\n  Replication: DCP intra-cluster (active → replica)");
    out.append("\n  Consensus:   Chronicle (metadata) + DCP (data)");
    out.append("\n  Durability:  None | Majority | MajorityAndPersist | PersistToMajority");
    out.append("\n  Groups:      Server Groups (rack/zone awareness)");
    out.append("\n  CertAuth:    ");
    if c.client_cert_auth {
        out.append("x509 cert auth enabled");
    } else {
        out.append("password auth");
    }
    out.append(" \n  ClusterEnc:  ");
    if c.cluster_encryption {
        out.append("enabled (node-to-node TLS)");
    } else {
        out.append("disabled");
    }
    out.append("\n  TLS:         ");
    out.append(on_off_text(c.tls_enabled));
    out.append(" ");
    let ghost head = out@;
    if c.tls_enabled {
        out.append("(MC TLS port: ");
        push_dec(&mut out, c.tls_memcached_port as u64);
        out.append(")");
        assert(out@ =~= head + ("(MC TLS port: "@ + dec(c.tls_memcached_port as nat) + ")"@));
    } else {
        assert(out@ =~= head + Seq::<char>::empty());
    }
    out.append("\n");
    out
}

/// How many committed entries are kept in the log of configuration changes.
pub const KEPT_ENTRIES: usize = 1000;

/// After how many seconds an entry without a majority has failed.
pub const ENTRY_TIMEOUT_SECS: i64 = 30;

/// Keeps the log of configuration changes short, at a given time.
pub fn maintain_chronicle_at(chronicle: &mut Chronicle, now: i128)
    ensures
        final(chronicle)@ == old(chronicle)@.collected(KEPT_ENTRIES as int).expired(
            now,
            ENTRY_TIMEOUT_SECS,
        ),
{
    chronicle.gc_old_entries(KEPT_ENTRIES);
    chronicle.fail_timed_out_entries_at(ENTRY_TIMEOUT_SECS, now);
}

/// Keeps the log of configuration changes short.
pub fn maintain_chronicle(chronicle: &mut Chronicle)
    ensures
        exists|now: i128|
            final(chronicle)@ == #[trigger] old(chronicle)@.collected(KEPT_ENTRIES as int).expired(
                now,
                ENTRY_TIMEOUT_SECS,
            ),
{
    let now: i128 = utc_now();
    maintain_chronicle_at(chronicle, now);
}

// ---- Laws ----

/// Every task that runs again and again has its interval, and the log on disk is flushed and
/// compacted exactly where documents are kept there.
pub proof fn law_tasks_have_their_interval(c: ServerConfig, task: Task, interval: Interval)
    ensures
        schedules_of(c).contains(Schedule { task, interval }) <==> match task {
            Task::ExpireDocuments => interval == Interval::Seconds(c.ttl_check_interval_secs),
            Task::ReplicateToClusters => interval == Interval::Milliseconds(
                c.xdcr_replication_interval_ms,
            ),
            Task::FlushLog => c.enable_persistence && interval == Interval::Milliseconds(50),
            Task::Compact => c.enable_persistence && interval == Interval::Seconds(
                c.btree_compact_interval_secs,
            ),
            Task::CheckHealth => interval == Interval::Seconds(5),
            Task::CleanTransactions => interval == Interval::Seconds(5),
            Task::Evict => interval == Interval::Seconds(c.eviction_check_interval_secs),
            Task::MoveVBuckets => interval == Interval::Seconds(2),
            Task::CleanDurability => interval == Interval::Milliseconds(100),
            Task::MaintainChronicle => interval == Interval::Seconds(10),
        },
        schedules_of(c).len() == if c.enable_persistence {
            10nat
        } else {
            8nat
        },
{
    let v = schedules_of(c);
    let w = Schedule { task, interval };
    let n = if c.enable_persistence {
        2int
    } else {
        0
    };
    assert(v[0].task == Task::ExpireDocuments && v[1].task == Task::ReplicateToClusters);
    assert(c.enable_persistence ==> v[2].task == Task::FlushLog && v[3].task == Task::Compact);
    assert(v[n + 2].task == Task::CheckHealth && v[n + 3].task == Task::CleanTransactions && v[n
        + 4].task == Task::Evict && v[n + 5].task == Task::MoveVBuckets && v[n + 6].task
        == Task::CleanDurability && v[n + 7].task == Task::MaintainChronicle);
    if v.contains(w) {
        let i = choose|i: int| 0 <= i < v.len() && v[i] == w;
        assert(i == 0 || i == 1 || i == 2 || i == 3 || i == 4 || i == 5 || i == 6 || i == 7 || i == 8
            || i == 9);
    }
}

/// A bucket with a quota, in megabytes, is emptied where it uses more than nine tenths of it, down to
/// eight tenths; one without a quota never.
pub proof fn law_full_buckets_are_emptied(ram_quota_mb: u64, used: usize)
    ensures
        eviction_goal(ram_quota_mb, used) is Some <==> ram_quota_mb > 0 && 10 * used > 9 * (1024 * (
        1024 * ram_quota_mb)),
        eviction_goal(ram_quota_mb, used) is Some ==> ({
            let goal = eviction_goal(ram_quota_mb, used)->0;
            10 * goal <= 8 * (1024 * (1024 * ram_quota_mb)) < 10 * (goal + 1)
        }),
{
}

/// The log of configuration changes keeps a thousand committed entries, and an entry has thirty
/// seconds to be agreed on.
pub proof fn law_chronicle_is_kept_short()
    ensures
        KEPT_ENTRIES == 1000,
        ENTRY_TIMEOUT_SECS == 30,
{
}

/// A setting is called enabled where it is on, and disabled where it is off.
pub proof fn law_settings_are_on_or_off(b: bool)
    ensures
        b ==> on_off(b) == "enabled"@,
        !b ==> on_off(b) == "disabled"@,
{
}

} // verus!
