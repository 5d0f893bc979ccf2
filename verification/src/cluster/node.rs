//! Nodes of the cluster.

use crate::clock::utc_now;
use crate::text::{copy_texts, dec, push_dec, texts};
use vstd::prelude::*;
use vstd::string::*;

verus! {

/// Node status in the cluster.
#[derive(Debug, Clone, Copy, PartialEq, Eq, Structural)]
pub enum NodeStatus {
    Healthy,
    Warmup,
    Unhealthy,
    Failed,
    /// Failed over, automatically or by hand, and waiting for recovery.
    FailedOver,
}

/// Services running on a node.
#[derive(Debug, Clone, Copy, PartialEq, Eq, Structural)]
pub enum NodeService {
    Data,
    Query,
    Index,
    Xdcr,
}

/// Server group: rack or zone, for the placement of replicas.
#[derive(Debug, Clone)]
pub struct ServerGroup {
    pub name: String,
    pub uuid: String,
    pub nodes: Vec<String>,
}

/// What a [`ServerGroup`] stands for.
#[verifier::ext_equal]
pub struct GroupView {
    pub name: Seq<char>,
    pub uuid: Seq<char>,
    pub nodes: Seq<Seq<char>>,
}

impl View for ServerGroup {
    type V = GroupView;

    open spec fn view(&self) -> GroupView {
        GroupView { name: self.name@, uuid: self.uuid@, nodes: texts(self.nodes@) }
    }
}

impl ServerGroup {
    /// A copy.
    pub fn copy(&self) -> (r: ServerGroup)
        ensures
            r@ == self@,
    {
        ServerGroup {
            name: self.name.clone(),
            uuid: self.uuid.clone(),
            nodes: copy_texts(&self.nodes),
        }
    }
}

/// A node in the cluster. Times are nanoseconds since the Unix epoch.
#[derive(Debug, Clone)]
pub struct ClusterNode {
    pub name: String,
    pub hostname: String,
    pub port: u16,
    pub status: NodeStatus,
    pub services: Vec<NodeService>,
    pub memory_total_mb: u64,
    pub memory_used_mb: u64,
    pub uptime_seconds: u64,
    pub joined_at: i128,
    pub last_heartbeat: i128,
    /// Server group this node belongs to.
    pub server_group: String,
}

/// What a [`ClusterNode`] stands for.
#[verifier::ext_equal]
pub struct NodeView {
    pub name: Seq<char>,
    pub hostname: Seq<char>,
    pub port: u16,
    pub status: NodeStatus,
    pub services: Seq<NodeService>,
    pub memory_total_mb: u64,
    pub memory_used_mb: u64,
    pub uptime_seconds: u64,
    pub joined_at: i128,
    pub last_heartbeat: i128,
    pub server_group: Seq<char>,
}

/// The group of nodes that were given none.
pub fn default_server_group() -> (r: String)
    ensures
        r@ == "Group 1"@,
{
    "Group 1".to_owned()
}

/// The address of a node's REST interface.
pub open spec fn url_of(hostname: Seq<char>, port: u16) -> Seq<char> {
    "http://"@ + hostname + ":"@ + dec(port as nat)
}

impl NodeView {
    /// A healthy node that runs every service, in the default group.
    pub open spec fn fresh(name: Seq<char>, hostname: Seq<char>, port: u16, now: i128) -> Self {
        NodeView {
            name,
            hostname,
            port,
            status: NodeStatus::Healthy,
            services: seq![
                NodeService::Data,
                NodeService::Query,
                NodeService::Index,
                NodeService::Xdcr,
            ],
            memory_total_mb: 0,
            memory_used_mb: 0,
            uptime_seconds: 0,
            joined_at: now,
            last_heartbeat: now,
            server_group: "Group 1"@,
        }
    }

    pub open spec fn with_status(self, status: NodeStatus) -> Self {
        NodeView { status, ..self }
    }
}

impl View for ClusterNode {
    type V = NodeView;

    open spec fn view(&self) -> NodeView {
        NodeView {
            name: self.name@,
            hostname: self.hostname@,
            port: self.port,
            status: self.status,
            services: self.services@,
            memory_total_mb: self.memory_total_mb,
            memory_used_mb: self.memory_used_mb,
            uptime_seconds: self.uptime_seconds,
            joined_at: self.joined_at,
            last_heartbeat: self.last_heartbeat,
            server_group: self.server_group@,
        }
    }
}

impl ClusterNode {
    /// A copy.
    pub fn copy(&self) -> (r: ClusterNode)
        ensures
            r@ == self@,
    {
        let mut services: Vec<NodeService> = Vec::new();
        let mut i: usize = 0;
        while i < self.services.len()
            invariant
                i <= self.services@.len(),
                services@ == self.services@.take(i as int),
            decreases self.services@.len() - i,
        {
            services.push(self.services[i]);
            i = i + 1;
            assert(services@ =~= self.services@.take(i as int));
        }
        assert(services@ =~= self.services@);
        ClusterNode {
            name: self.name.clone(),
            hostname: self.hostname.clone(),
            port: self.port,
            status: self.status,
            services,
            memory_total_mb: self.memory_total_mb,
            memory_used_mb: self.memory_used_mb,
            uptime_seconds: self.uptime_seconds,
            joined_at: self.joined_at,
            last_heartbeat: self.last_heartbeat,
            server_group: self.server_group.clone(),
        }
    }

    /// A healthy node that joined at `now`.
    pub fn new_self_at(name: String, hostname: String, port: u16, now: i128) -> (r: Self)
        ensures
            r@ == NodeView::fresh(name@, hostname@, port, now),
    {
        let mut services: Vec<NodeService> = Vec::new();
        services.push(NodeService::Data);
        services.push(NodeService::Query);
        services.push(NodeService::Index);
        services.push(NodeService::Xdcr);
        assert(services@ =~= seq![
            NodeService::Data,
            NodeService::Query,
            NodeService::Index,
            NodeService::Xdcr,
        ]);
        ClusterNode {
            name,
            hostname,
            port,
            status: NodeStatus::Healthy,
            services,
            memory_total_mb: 0,
            memory_used_mb: 0,
            uptime_seconds: 0,
            joined_at: now,
            last_heartbeat: now,
            server_group: default_server_group(),
        }
    }

    /// A healthy node that joins now.
    pub fn new_self(name: String, hostname: String, port: u16) -> (r: Self)
        ensures
            r@ == NodeView::fresh(name@, hostname@, port, r.joined_at),
    {
        let now: i128 = utc_now();
        Self::new_self_at(name, hostname, port, now)
    }

    /// A healthy node of a group that joins now.
    pub fn new_with_group(name: String, hostname: String, port: u16, server_group: String) -> (r:
        Self)
        ensures
            r@ == (NodeView {
                server_group: server_group@,
                ..NodeView::fresh(name@, hostname@, port, r.joined_at)
            }),
    {
        let mut node = Self::new_self(name, hostname, port);
        node.server_group = server_group;
        node
    }

    /// The address of the node's REST interface.
    pub fn base_url(&self) -> (r: String)
        ensures
            r@ == url_of(self@.hostname, self@.port),
    {
        let mut url = "http://".to_owned();
        url.append(self.hostname.as_str());
        url.append(":");
        push_dec(&mut url, self.port as u64);
        url
    }
}

// ---- Laws ----

/// The address of a node's REST interface is the scheme, the host, a colon and the port.
pub proof fn law_node_addresses(hostname: Seq<char>, port: u16)
    ensures
        url_of(hostname, port) == "http://"@ + hostname + seq![':'] + dec(port as nat),
{
    reveal_strlit(":");
    assert(":"@ =~= seq![':']);
}

/// A node that joins is healthy, runs every service, has just been heard of and is in the default
/// group.
pub proof fn law_new_nodes_run_every_service(
    name: Seq<char>,
    hostname: Seq<char>,
    port: u16,
    now: i128,
    service: NodeService,
)
    ensures
        ({
            let node = NodeView::fresh(name, hostname, port, now);
            &&& node.name == name
            &&& node.hostname == hostname
            &&& node.port == port
            &&& node.status == NodeStatus::Healthy
            &&& node.joined_at == now
            &&& node.last_heartbeat == now
            &&& node.server_group == "Group 1"@
            &&& node.memory_total_mb == 0
            &&& node.memory_used_mb == 0
            &&& node.uptime_seconds == 0
            &&& node.services.no_duplicates()
            &&& node.services.contains(NodeService::Data)
            &&& node.services.contains(NodeService::Query)
            &&& node.services.contains(NodeService::Index)
            &&& node.services.contains(NodeService::Xdcr)
        }),
{
    let s = NodeView::fresh(name, hostname, port, now).services;
    assert(s[0] == NodeService::Data && s[1] == NodeService::Query && s[2] == NodeService::Index && s[3]
        == NodeService::Xdcr);
}

/// A change of status changes nothing else.
pub proof fn law_status_changes_alone(node: NodeView, status: NodeStatus)
    ensures
        node.with_status(status).status == status,
        node.with_status(status) == (NodeView { status, ..node }),
{
}

} // verus!
