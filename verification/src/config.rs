//! Server configuration.

use crate::text::{dec, push_dec};
use vstd::prelude::*;
use vstd::std_specs::convert::{FromSpec, FromSpecImpl};
use vstd::string::*;

verus! {

/// What the command line says.
#[derive(Debug)]
pub struct CliArgs {
    /// Host address to bind.
    pub host: String,
    /// Port to listen on.
    pub port: u16,
    /// Data directory for persistence.
    pub data_dir: String,
    /// Node name for cluster identification.
    pub node_name: String,
    /// Number of vBuckets per bucket.
    pub num_vbuckets: u16,
    pub ttl_check_interval_secs: u64,
    pub xdcr_replication_interval_ms: u64,
    pub enable_persistence: bool,
    pub wal_sync_interval_ms: u64,
    /// Buffered operations before the log is flushed; zero for no such trigger.
    pub wal_buffer_max_ops: usize,
    /// Buffered bytes before the log is flushed; zero for no such trigger.
    pub wal_buffer_max_bytes: usize,
    pub wal_flush_interval_ms: u64,
    pub btree_compact_interval_secs: u64,
    /// Port of the memcached binary protocol.
    pub memcached_port: u16,
    pub eviction_check_interval_secs: u64,
    pub tls_enabled: bool,
    pub tls_cert_path: String,
    pub tls_key_path: String,
    pub tls_memcached_port: u16,
    pub client_cert_auth: bool,
    pub client_ca_cert_path: String,
    pub cluster_encryption: bool,
}

impl Default for CliArgs {
    /// The settings of a server that is started without any options.
    fn default() -> (r: Self)
        ensures
            r.host@ == "0.0.0.0"@,
            r.port == 8091,
            r.data_dir@ == "./data"@,
            r.node_name@ == "node-1"@,
            r.num_vbuckets == 1024,
            r.ttl_check_interval_secs == 1,
            r.xdcr_replication_interval_ms == 500,
            r.enable_persistence,
            r.wal_sync_interval_ms == 1000,
            r.wal_buffer_max_ops == 5000,
            r.wal_buffer_max_bytes == 4194304,
            r.wal_flush_interval_ms == 1000,
            r.btree_compact_interval_secs == 30,
            r.memcached_port == 11210,
            r.eviction_check_interval_secs == 5,
            !r.tls_enabled,
            r.tls_cert_path@ == ""@,
            r.tls_key_path@ == ""@,
            r.tls_memcached_port == 11207,
            !r.client_cert_auth,
            r.client_ca_cert_path@ == ""@,
            !r.cluster_encryption,
    {
        CliArgs {
            host: "0.0.0.0".to_owned(),
            port: 8091,
            data_dir: "./data".to_owned(),
            node_name: "node-1".to_owned(),
            num_vbuckets: 1024,
            ttl_check_interval_secs: 1,
            xdcr_replication_interval_ms: 500,
            enable_persistence: true,
            wal_sync_interval_ms: 1000,
            wal_buffer_max_ops: 5000,
            wal_buffer_max_bytes: 4194304,
            wal_flush_interval_ms: 1000,
            btree_compact_interval_secs: 30,
            memcached_port: 11210,
            eviction_check_interval_secs: 5,
            tls_enabled: false,
            tls_cert_path: "".to_owned(),
            tls_key_path: "".to_owned(),
            tls_memcached_port: 11207,
            client_cert_auth: false,
            client_ca_cert_path: "".to_owned(),
            cluster_encryption: false,
        }
    }
}

/// The configuration of a server.
#[derive(Debug)]
pub struct ServerConfig {
    pub host: String,
    pub port: u16,
    pub data_dir: String,
    pub node_name: String,
    pub num_vbuckets: u16,
    pub ttl_check_interval_secs: u64,
    pub xdcr_replication_interval_ms: u64,
    pub enable_persistence: bool,
    pub wal_sync_interval_ms: u64,
    pub wal_buffer_max_ops: usize,
    pub wal_buffer_max_bytes: usize,
    pub wal_flush_interval_ms: u64,
    pub btree_compact_interval_secs: u64,
    pub memcached_port: u16,
    pub eviction_check_interval_secs: u64,
    pub tls_enabled: bool,
    pub tls_cert_path: String,
    pub tls_key_path: String,
    pub tls_memcached_port: u16,
    pub client_cert_auth: bool,
    pub client_ca_cert_path: String,
    pub cluster_encryption: bool,
}

impl FromSpecImpl<CliArgs> for ServerConfig {
    open spec fn obeys_from_spec() -> bool {
        true
    }

    open spec fn from_spec(args: CliArgs) -> Self {
        ServerConfig {
            host: args.host,
            port: args.port,
            data_dir: args.data_dir,
            node_name: args.node_name,
            num_vbuckets: args.num_vbuckets,
            ttl_check_interval_secs: args.ttl_check_interval_secs,
            xdcr_replication_interval_ms: args.xdcr_replication_interval_ms,
            enable_persistence: args.enable_persistence,
            wal_sync_interval_ms: args.wal_sync_interval_ms,
            wal_buffer_max_ops: args.wal_buffer_max_ops,
            wal_buffer_max_bytes: args.wal_buffer_max_bytes,
            wal_flush_interval_ms: args.wal_flush_interval_ms,
            btree_compact_interval_secs: args.btree_compact_interval_secs,
            memcached_port: args.memcached_port,
            eviction_check_interval_secs: args.eviction_check_interval_secs,
            tls_enabled: args.tls_enabled,
            tls_cert_path: args.tls_cert_path,
            tls_key_path: args.tls_key_path,
            tls_memcached_port: args.tls_memcached_port,
            client_cert_auth: args.client_cert_auth,
            client_ca_cert_path: args.client_ca_cert_path,
            cluster_encryption: args.cluster_encryption,
        }
    }
}

impl From<CliArgs> for ServerConfig {
    fn from(args: CliArgs) -> (r: Self) {
        ServerConfig {
            host: args.host,
            port: args.port,
            data_dir: args.data_dir,
            node_name: args.node_name,
            num_vbuckets: args.num_vbuckets,
            ttl_check_interval_secs: args.ttl_check_interval_secs,
            xdcr_replication_interval_ms: args.xdcr_replication_interval_ms,
            enable_persistence: args.enable_persistence,
            wal_sync_interval_ms: args.wal_sync_interval_ms,
            wal_buffer_max_ops: args.wal_buffer_max_ops,
            wal_buffer_max_bytes: args.wal_buffer_max_bytes,
            wal_flush_interval_ms: args.wal_flush_interval_ms,
            btree_compact_interval_secs: args.btree_compact_interval_secs,
            memcached_port: args.memcached_port,
            eviction_check_interval_secs: args.eviction_check_interval_secs,
            tls_enabled: args.tls_enabled,
            tls_cert_path: args.tls_cert_path,
            tls_key_path: args.tls_key_path,
            tls_memcached_port: args.tls_memcached_port,
            client_cert_auth: args.client_cert_auth,
            client_ca_cert_path: args.client_ca_cert_path,
            cluster_encryption: args.cluster_encryption,
        }
    }
}

/// Host and port, joined by a colon.
pub open spec fn address_of(host: Seq<char>, port: u16) -> Seq<char> {
    host + ":"@ + dec(port as nat)
}

/// Host and port, joined by a colon.
pub fn address(host: &str, port: u16) -> (r: String)
    ensures
        r@ == address_of(host@, port),
{
    let mut out = host.to_owned();
    out.append(":");
    push_dec(&mut out, port as u64);
    out
}

impl ServerConfig {
    /// The address on which the REST interface listens.
    pub fn bind_address(&self) -> (r: String)
        ensures
            r@ == address_of(self.host@, self.port),
    {
        address(self.host.as_str(), self.port)
    }
}

// ---- Laws ----

/// A server is configured as the command line says.
pub proof fn law_command_line_is_followed(args: CliArgs)
    ensures
        ({
            let config = <ServerConfig as FromSpec<CliArgs>>::from_spec(args);
            &&& config.host == args.host
            &&& config.port == args.port
            &&& config.data_dir == args.data_dir
            &&& config.node_name == args.node_name
            &&& config.num_vbuckets == args.num_vbuckets
            &&& config.ttl_check_interval_secs == args.ttl_check_interval_secs
            &&& config.xdcr_replication_interval_ms == args.xdcr_replication_interval_ms
            &&& config.enable_persistence == args.enable_persistence
            &&& config.wal_sync_interval_ms == args.wal_sync_interval_ms
            &&& config.wal_buffer_max_ops == args.wal_buffer_max_ops
            &&& config.wal_buffer_max_bytes == args.wal_buffer_max_bytes
            &&& config.wal_flush_interval_ms == args.wal_flush_interval_ms
            &&& config.btree_compact_interval_secs == args.btree_compact_interval_secs
            &&& config.memcached_port == args.memcached_port
            &&& config.eviction_check_interval_secs == args.eviction_check_interval_secs
            &&& config.tls_enabled == args.tls_enabled
            &&& config.tls_cert_path == args.tls_cert_path
            &&& config.tls_key_path == args.tls_key_path
            &&& config.tls_memcached_port == args.tls_memcached_port
            &&& config.client_cert_auth == args.client_cert_auth
            &&& config.client_ca_cert_path == args.client_ca_cert_path
            &&& config.cluster_encryption == args.cluster_encryption
        }),
{
}

/// An address is a host, a colon and the decimal digits of a port.
pub proof fn law_addresses_end_with_the_port(host: Seq<char>, port: u16)
    ensures
        address_of(host, port) == host + seq![':'] + dec(port as nat),
{
    reveal_strlit(":");
    assert(":"@ =~= seq![':']);
}

} // verus!
