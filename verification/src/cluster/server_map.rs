//! What clients are told about the cluster: where the key-value service of each node listens, and
//! which nodes hold each vBucket.

use crate::cluster::manager::node_views;
use crate::cluster::node::{ClusterNode, NodeStatus, NodeView};
use crate::cluster::partition::{last_index, OwnershipView, PartitionMap};
use crate::config::{address, address_of};
use crate::text::{dec, same_text, texts};
use vstd::prelude::*;

verus! {

/// The address under which clients reach a host: the wildcard address stands for this machine.
pub open spec fn reachable_host(hostname: Seq<char>) -> Seq<char> {
    if hostname == "0.0.0.0"@ {
        "127.0.0.1"@
    } else {
        hostname
    }
}

/// The address under which clients reach a host.
pub fn effective_hostname<'a>(hostname: &'a str) -> (r: &'a str)
    ensures
        r@ == reachable_host(hostname@),
{
    if same_text(hostname, "0.0.0.0") {
        "127.0.0.1"
    } else {
        hostname
    }
}

/// The node that answers, and the ports of its services.
#[derive(Debug)]
pub struct LocalPorts {
    pub node_name: String,
    pub port: u16,
    pub memcached_port: u16,
}

impl LocalPorts {
    /// Whether the key-value port of a node can be told: other nodes are taken to keep the same
    /// distance between their two ports.
    pub open spec fn fits(self, node: NodeView) -> bool {
        node.name == self.node_name@ || (self.memcached_port >= self.port && node.port + (
        self.memcached_port - self.port) <= u16::MAX)
    }

    /// Whether the key-value ports of all nodes can be told.
    pub open spec fn fit_all(self, nodes: Seq<NodeView>) -> bool {
        forall|i: int| 0 <= i < nodes.len() ==> self.fits(#[trigger] nodes[i])
    }

    /// The key-value port of a node.
    pub open spec fn kv_port_of(self, node: NodeView) -> int {
        if node.name == self.node_name@ {
            self.memcached_port as int
        } else {
            node.port + (self.memcached_port - self.port)
        }
    }

    /// Whether the key-value ports of all nodes can be told.
    pub fn ports_fit(&self, nodes: &Vec<ClusterNode>) -> (r: bool)
        ensures
            r == self.fit_all(node_views(nodes@)),
    {
        let ghost views = node_views(nodes@);
        let mut k: usize = 0;
        while k < nodes.len()
            invariant
                k <= nodes@.len(),
                views == node_views(nodes@),
                forall|i: int| 0 <= i < k ==> self.fits(#[trigger] views[i]),
            decreases nodes@.len() - k,
        {
            assert(views[k as int] == nodes@[k as int]@);
            if !same_text(nodes[k].name.as_str(), self.node_name.as_str()) {
                if self.memcached_port < self.port || nodes[k].port as u32 + (
                self.memcached_port - self.port) as u32 > 65535 {
                    assert(!self.fits(views[k as int]));
                    return false;
                }
            }
            k = k + 1;
        }
        true
    }

    /// The key-value port of a node.
    pub fn kv_port(&self, node: &ClusterNode) -> (r: u16)
        requires
            self.fits(node@),
        ensures
            r == self.kv_port_of(node@),
    {
        if same_text(node.name.as_str(), self.node_name.as_str()) {
            self.memcached_port
        } else {
            node.port + (self.memcached_port - self.port)
        }
    }

    /// The address of a node's key-value service.
    pub open spec fn server_of(self, node: NodeView) -> Seq<char> {
        address_of(reachable_host(node.hostname), self.kv_port_of(node) as u16)
    }

    /// The addresses of the key-value services of all nodes.
    pub fn server_list(&self, nodes: &Vec<ClusterNode>) -> (r: Vec<String>)
        requires
            self.fit_all(node_views(nodes@)),
        ensures
            texts(r@) == Seq::new(nodes@.len(), |i: int| self.server_of(nodes@[i]@)),
    {
        let ghost views = node_views(nodes@);
        let mut out: Vec<String> = Vec::new();
        let mut k: usize = 0;
        while k < nodes.len()
            invariant
                k <= nodes@.len(),
                views == node_views(nodes@),
                self.fit_all(views),
                out@.len() == k,
                forall|i: int| 0 <= i < k ==> (#[trigger] out@[i])@ == self.server_of(nodes@[i]@),
            decreases nodes@.len() - k,
        {
            assert(views[k as int] == nodes@[k as int]@);
            out.push(
                address(effective_hostname(nodes[k].hostname.as_str()), self.kv_port(&nodes[k])),
            );
            k = k + 1;
        }
        assert(texts(out@) =~= Seq::new(nodes@.len(), |i: int| self.server_of(nodes@[i]@)));
        out
    }
}

/// The word for a node's status that clients understand.
pub open spec fn health_word(status: NodeStatus) -> Seq<char> {
    match status {
        NodeStatus::Healthy => "healthy"@,
        NodeStatus::Warmup => "warmup"@,
        _ => "unhealthy"@,
    }
}

/// The word for a node's status that clients understand.
pub fn health_text(status: NodeStatus) -> (r: &'static str)
    ensures
        r@ == health_word(status),
{
    match status {
        NodeStatus::Healthy => "healthy",
        NodeStatus::Warmup => "warmup",
        _ => "unhealthy",
    }
}

/// The place of a node in the server list, or minus one where it is not there.
pub open spec fn server_index(names: Seq<Seq<char>>, name: Seq<char>) -> int {
    match last_index(names, name) {
        Some(i) => i,
        None => -1,
    }
}

/// The places of the nodes that hold a vBucket: the owner, then the replicas, at least two
/// entries.
pub open spec fn server_indexes(names: Seq<Seq<char>>, entry: OwnershipView) -> Seq<int> {
    let all = seq![server_index(names, entry.active)] + Seq::new(
        entry.replicas.len(),
        |i: int| server_index(names, entry.replicas[i]),
    );
    if all.len() < 2 {
        all.push(-1)
    } else {
        all
    }
}

/// The names of a list of nodes.
fn names_of_nodes(nodes: &Vec<ClusterNode>) -> (r: Vec<String>)
    ensures
        texts(r@) == crate::cluster::manager::node_names(node_views(nodes@)),
{
    let mut names: Vec<String> = Vec::new();
    let mut k: usize = 0;
    while k < nodes.len()
        invariant
            k <= nodes@.len(),
            names@.len() == k,
            forall|i: int| 0 <= i < k ==> (#[trigger] names@[i])@ == nodes@[i].name@,
        decreases nodes@.len() - k,
    {
        names.push(nodes[k].name.clone());
        k = k + 1;
    }
    assert(texts(names@) =~= crate::cluster::manager::node_names(node_views(nodes@)));
    names
}

fn index_in(names: &Vec<String>, name: &str) -> (r: i32)
    requires
        names@.len() <= i32::MAX,
    ensures
        r == server_index(texts(names@), name@),
{
    match crate::cluster::partition::index_of(names.as_slice(), name) {
        Some(i) => i as i32,
        None => -1,
    }
}

/// The vBucket map that clients route by: for each vBucket the places of its nodes in the server
/// list.
pub fn vbucket_map(map: &PartitionMap, nodes: &Vec<ClusterNode>) -> (r: Vec<Vec<i32>>)
    requires
        nodes@.len() <= i32::MAX,
    ensures
        r@.len() == map@.map.len(),
        forall|vb: int|
            0 <= vb < r@.len() ==> {
                let names = crate::cluster::manager::node_names(node_views(nodes@));
                let want = server_indexes(names, map@.map[vb]);
                (#[trigger] r@[vb])@.len() == want.len() && forall|i: int|
                    0 <= i < want.len() ==> #[trigger] r@[vb]@[i] == want[i]
            },
{
    let names = names_of_nodes(nodes);
    let ghost name_texts = texts(names@);
    assert(name_texts.len() == names@.len());
    let mut out: Vec<Vec<i32>> = Vec::new();
    let mut vb: usize = 0;
    while vb < map.map.len()
        invariant
            vb <= map.map@.len(),
            nodes@.len() <= i32::MAX,
            names@.len() == nodes@.len(),
            name_texts == texts(names@),
            name_texts == crate::cluster::manager::node_names(node_views(nodes@)),
            out@.len() == vb,
            forall|v: int|
                0 <= v < vb ==> {
                    let want = server_indexes(name_texts, map@.map[v]);
                    (#[trigger] out@[v])@.len() == want.len() && forall|i: int|
                        0 <= i < want.len() ==> #[trigger] out@[v]@[i] == want[i]
                },
        decreases map.map@.len() - vb,
    {
        let entry = &map.map[vb];
        let ghost view = map@.map[vb as int];
        assert(view == entry@);
        let ghost want = server_indexes(name_texts, view);
        let mut mapping: Vec<i32> = Vec::new();
        mapping.push(index_in(&names, entry.active_node.as_str()));
        let mut k: usize = 0;
        while k < entry.replica_nodes.len()
            invariant
                k <= entry.replica_nodes@.len(),
                names@.len() <= i32::MAX,
                name_texts == texts(names@),
                view == entry@,
                mapping@.len() == k + 1,
                mapping@[0] == server_index(name_texts, view.active),
                forall|i: int|
                    0 <= i < k ==> #[trigger] mapping@[i + 1] == server_index(
                        name_texts,
                        view.replicas[i],
                    ),
            decreases entry.replica_nodes@.len() - k,
        {
            mapping.push(index_in(&names, entry.replica_nodes[k].as_str()));
            k = k + 1;
        }
        if mapping.len() < 2 {
            mapping.push(-1);
        }
        proof {
            assert(mapping@.len() == want.len());
            assert forall|i: int| 0 <= i < want.len() implies #[trigger] mapping@[i] == want[i] by {
                if i > 0 && i <= view.replicas.len() {
                    assert(mapping@[(i - 1) + 1] == server_index(name_texts, view.replicas[i - 1]));
                }
            }
        }
        out.push(mapping);
        vb = vb + 1;
    }
    out
}

// ---- Laws ----

/// A host is reached under its own name, except that the wildcard address stands for this machine.
pub proof fn law_hosts_are_reached_by_name(hostname: Seq<char>)
    ensures
        hostname != "0.0.0.0"@ ==> reachable_host(hostname) == hostname,
        reachable_host("0.0.0.0"@) == "127.0.0.1"@,
{
}

/// The key-value service of this node listens on its own port; that of another node lies as far from
/// the port of its REST interface as it does here.
pub proof fn law_ports_lie_as_far_apart(local: LocalPorts, node: NodeView)
    ensures
        node.name == local.node_name@ ==> local.kv_port_of(node) == local.memcached_port,
        node.name != local.node_name@ ==> local.kv_port_of(node) - node.port == local.memcached_port
            - local.port,
        local.fits(node) ==> 0 <= local.kv_port_of(node) <= 65535,
        local.fits(node) && node.hostname != "0.0.0.0"@ ==> local.server_of(node) == node.hostname
            + ":"@ + dec(local.kv_port_of(node) as nat),
{
}

/// Only a node that is healthy is called so, and only one that warms up is said to.
pub proof fn law_health_words(status: NodeStatus)
    ensures
        status == NodeStatus::Healthy ==> health_word(status) == "healthy"@,
        status == NodeStatus::Warmup ==> health_word(status) == "warmup"@,
        status != NodeStatus::Healthy && status != NodeStatus::Warmup ==> health_word(status)
            == "unhealthy"@,
{
}

/// The first entry for a vBucket is the place of its owner in the server list, the others are those
/// of its replicas in their order; a missing node is minus one, and there are at least two entries.
pub proof fn law_entries_are_places(names: Seq<Seq<char>>, entry: OwnershipView, i: int, k: int)
    requires
        names.no_duplicates(),
        0 <= i < names.len(),
    ensures
        ({
            let places = server_indexes(names, entry);
            &&& names[i] == entry.active ==> places[0] == i
            &&& !names.contains(entry.active) ==> places[0] == -1
            &&& 0 <= k < entry.replicas.len() && names[i] == entry.replicas[k] ==> places[1 + k] == i
            &&& 0 <= k < entry.replicas.len() && !names.contains(entry.replicas[k]) ==> places[1 + k]
                == -1
            &&& entry.replicas.len() > 0 ==> places.len() == 1 + entry.replicas.len()
            &&& entry.replicas.len() == 0 ==> places.len() == 2 && places[1] == -1
        }),
{
    lemma_server_index(names, entry.active, i);
    if 0 <= k < entry.replicas.len() {
        lemma_server_index(names, entry.replicas[k], i);
    }
}

proof fn lemma_server_index(names: Seq<Seq<char>>, name: Seq<char>, i: int)
    requires
        names.no_duplicates(),
        0 <= i < names.len(),
    ensures
        names[i] == name ==> server_index(names, name) == i,
        !names.contains(name) ==> server_index(names, name) == -1,
    decreases names.len(),
{
    let n = names.len() - 1;
    let rest = names.drop_last();
    if names.last() != name {
        assert(!names.contains(name) ==> !rest.contains(name)) by {
            if rest.contains(name) {
                let j = choose|j: int| 0 <= j < rest.len() && rest[j] == name;
                assert(names[j] == name);
            }
        }
        assert(rest.no_duplicates());
        if i < n {
            lemma_server_index(rest, name, i);
        } else if rest.len() > 0 {
            lemma_server_index(rest, name, 0);
        }
    } else {
        assert(names[n] == name);
        assert(names.contains(name));
    }
}

} // verus!
