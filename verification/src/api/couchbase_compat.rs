//! What client libraries ask before they start: the nodes, the buckets and the ports. In the
//! objects the order of the members does not matter.

use crate::cluster::manager::node_views;
use crate::cluster::node::{ClusterNode, NodeView};
use crate::cluster::partition::{PartitionMap, PartitionMapView};
use crate::cluster::server_map::{
    effective_hostname, health_text, health_word, law_entries_are_places, reachable_host,
    server_indexes, vbucket_map, LocalPorts,
};
use crate::config::{address, address_of};
use crate::json::{
    integer, json_integer, json_number, json_text, json_texts, number, text_items, Json, JsonView,
};
use crate::text::{chars_of, dec, dec_text, opt_text, push_char, same_text, texts};
use crate::text_split::{has_prefix, split, split_on, starts_with, text_after};
use vstd::prelude::*;
use vstd::string::*;

verus! {

/// The path of a bucket, and what follows it.
pub open spec fn bucket_path(name: Seq<char>, rest: Seq<char>) -> Seq<char> {
    "/pools/default/buckets/"@ + name + rest
}

fn make_bucket_path(name: &str, rest: &str) -> (r: String)
    ensures
        r@ == bucket_path(name@, rest@),
{
    let mut out = "/pools/default/buckets/".to_owned();
    out.append(name);
    out.append(rest);
    out
}

fn make_bucket_uri(name: &str) -> (r: String)
    ensures
        r@ == "/pools/default/buckets/"@ + name@,
{
    let mut out = "/pools/default/buckets/".to_owned();
    out.append(name);
    out
}

fn make_streaming_uri(name: &str) -> (r: String)
    ensures
        r@ == "/pools/default/bucketsStreaming/"@ + name@,
{
    let mut out = "/pools/default/bucketsStreaming/".to_owned();
    out.append(name);
    out
}

/// The address of a node.
pub open spec fn node_address(node: NodeView) -> Seq<char> {
    address_of(reachable_host(node.hostname), node.port)
}

fn make_node_address(node: &ClusterNode) -> (r: String)
    ensures
        r@ == node_address(node@),
{
    address(effective_hostname(node.hostname.as_str()), node.port)
}

/// The address of a node as a web address with a path.
pub open spec fn node_url(node: NodeView, path: Seq<char>) -> Seq<char> {
    "http://"@ + node_address(node) + "/"@ + path
}

fn make_node_url(node: &ClusterNode, path: &str) -> (r: String)
    ensures
        r@ == node_url(node@, path@),
{
    let mut out = "http://".to_owned();
    let place = make_node_address(node);
    out.append(place.as_str());
    out.append("/");
    out.append(path);
    out
}

/// The rows of the vBucket map.
pub open spec fn map_rows(names: Seq<Seq<char>>, map: PartitionMapView) -> Seq<JsonView> {
    Seq::new(map.map.len(), |vb: int| JsonView::Array(row(server_indexes(names, map.map[vb]))))
}

/// Integers.
pub open spec fn row(v: Seq<int>) -> Seq<JsonView> {
    Seq::new(v.len(), |i: int| integer(v[i]))
}

fn make_row(v: &Vec<i32>, Ghost(want): Ghost<Seq<int>>) -> (r: Json)
    requires
        v@.len() == want.len(),
        forall|i: int| 0 <= i < want.len() ==> #[trigger] v@[i] == want[i],
    ensures
        r@ == JsonView::Array(row(want)),
{
    let mut out = Json::array();
    let mut k: usize = 0;
    assert(row(want.take(0)) =~= Seq::<JsonView>::empty());
    while k < v.len()
        invariant
            k <= v@.len(),
            v@.len() == want.len(),
            forall|i: int| 0 <= i < want.len() ==> #[trigger] v@[i] == want[i],
            out@ == JsonView::Array(row(want.take(k as int))),
        decreases v@.len() - k,
    {
        out = out.item(json_integer(v[k] as i64));
        assert(row(want.take(k + 1)) =~= row(want.take(k as int)).push(integer(want[k as int])));
        k = k + 1;
    }
    assert(want.take(k as int) =~= want);
    out
}

/// The names of the nodes.
pub open spec fn names_in(nodes: Seq<NodeView>) -> Seq<Seq<char>> {
    crate::cluster::manager::node_names(nodes)
}

fn make_map_rows(map: &PartitionMap, nodes: &Vec<ClusterNode>) -> (r: Json)
    requires
        nodes@.len() <= i32::MAX,
    ensures
        r@ == JsonView::Array(map_rows(names_in(node_views(nodes@)), map@)),
{
    let rows = vbucket_map(map, nodes);
    let ghost names = names_in(node_views(nodes@));
    let mut out = Json::array();
    let mut k: usize = 0;
    assert(map_rows(names, map@).take(0) =~= Seq::<JsonView>::empty());
    while k < rows.len()
        invariant
            k <= rows@.len(),
            rows@.len() == map@.map.len(),
            names == names_in(node_views(nodes@)),
            forall|vb: int|
                0 <= vb < rows@.len() ==> {
                    let want = server_indexes(names, map@.map[vb]);
                    (#[trigger] rows@[vb])@.len() == want.len() && forall|i: int|
                        0 <= i < want.len() ==> #[trigger] rows@[vb]@[i] == want[i]
                },
            out@ == JsonView::Array(map_rows(names, map@).take(k as int)),
        decreases rows@.len() - k,
    {
        let ghost want = server_indexes(names, map@.map[k as int]);
        out = out.item(make_row(&rows[k], Ghost(want)));
        assert(map_rows(names, map@).take(k + 1) =~= map_rows(names, map@).take(k as int).push(
            JsonView::Array(row(want)),
        ));
        k = k + 1;
    }
    assert(map_rows(names, map@).take(k as int) =~= map_rows(names, map@));
    out
}

/// The addresses of the key-value services.
pub open spec fn servers_in(local: LocalPorts, nodes: Seq<NodeView>) -> Seq<Seq<char>> {
    Seq::new(nodes.len(), |i: int| local.server_of(nodes[i]))
}

fn make_server_list(local: &LocalPorts, nodes: &Vec<ClusterNode>) -> (r: Json)
    requires
        local.fit_all(node_views(nodes@)),
    ensures
        r@ == JsonView::Array(text_items(servers_in(*local, node_views(nodes@)))),
{
    let list = local.server_list(nodes);
    assert(texts(list@) =~= servers_in(*local, node_views(nodes@)));
    json_texts(&list)
}

fn otp_name(node: &ClusterNode) -> (r: String)
    ensures
        r@ == "ns_1@"@ + reachable_host(node@.hostname),
{
    let mut out = "ns_1@".to_owned();
    out.append(effective_hostname(node.hostname.as_str()));
    out
}

/// What is said of a node in the list of nodes.
pub open spec fn node_json(node: NodeView, local: LocalPorts) -> JsonView {
    JsonView::object()
        .with("couchApiBase"@, JsonView::Text(node_url(node, ""@)))
        .with("hostname"@, JsonView::Text(node_address(node)))
        .with("status"@, JsonView::Text(health_word(node.status)))
        .with("clusterMembership"@, JsonView::Text("active"@))
        .with("thisNode"@, JsonView::Bool(node.name == local.node_name@))
        .with("ports"@, JsonView::object()
            .with("httpsMgmt"@, number(18091))
            .with("httpsCAPI"@, number(18092))
            .with("direct"@, number(local.kv_port_of(node) as nat)))
        .with(
            "services"@,
            JsonView::array()
                .item(JsonView::Text("kv"@))
                .item(JsonView::Text("n1ql"@))
                .item(JsonView::Text("index"@)),
        )
        .with("nodeUUID"@, JsonView::Text(node.name))
        .with("otpNode"@, JsonView::Text("ns_1@"@ + reachable_host(node.hostname)))
        .with("recoveryType"@, JsonView::Text("none"@))
        .with("clusterCompatibility"@, number(458752))
        .with("version"@, JsonView::Text("0.3.0-oxidedb"@))
        .with("os"@, JsonView::Text("linux-amd64"@))
        .with("cpuCount"@, number(4))
        .with("memoryTotal"@, number(1073741824))
        .with("memoryFree"@, number(536870912))
        .with("uptime"@, JsonView::Text(dec(node.uptime_seconds as nat)))
        .with("interestingStats"@, JsonView::object()
            .with("curr_items"@, number(0))
            .with("curr_items_tot"@, number(0))
            .with("vb_replica_curr_items"@, number(0))
            .with("cmd_get"@, number(0))
            .with("get_hits"@, number(0))
            .with("ops"@, number(0)))
}

/// What is said of a node in the list of nodes.
pub fn build_node_json(node: &ClusterNode, local: &LocalPorts) -> (r: Json)
    requires
        local.fits(node@),
    ensures
        r@ == node_json(node@, *local),
{
    Json::object()
        .with("couchApiBase", json_text(make_node_url(node, "").as_str()))
        .with("hostname", json_text(make_node_address(node).as_str()))
        .with("status", json_text(health_text(node.status)))
        .with("clusterMembership", json_text("active"))
        .with("thisNode", Json::Bool(same_text(node.name.as_str(), local.node_name.as_str())))
        .with("ports", Json::object()
            .with("httpsMgmt", json_number(18091))
            .with("httpsCAPI", json_number(18092))
            .with("direct", json_number(local.kv_port(node) as u64)))
        .with(
            "services",
            Json::array()
                .item(json_text("kv"))
                .item(json_text("n1ql"))
                .item(json_text("index")),
        )
        .with("nodeUUID", json_text(node.name.as_str()))
        .with("otpNode", json_text(otp_name(node).as_str()))
        .with("recoveryType", json_text("none"))
        .with("clusterCompatibility", json_number(458752))
        .with("version", json_text("0.3.0-oxidedb"))
        .with("os", json_text("linux-amd64"))
        .with("cpuCount", json_number(4))
        .with("memoryTotal", json_number(1073741824))
        .with("memoryFree", json_number(536870912))
        .with("uptime", json_text(dec_text(node.uptime_seconds).as_str()))
        .with("interestingStats", Json::object()
            .with("curr_items", json_number(0))
            .with("curr_items_tot", json_number(0))
            .with("vb_replica_curr_items", json_number(0))
            .with("cmd_get", json_number(0))
            .with("get_hits", json_number(0))
            .with("ops", json_number(0)))
}

/// The services of a node and their ports, as the bucket configuration has them.
pub open spec fn bucket_node(node: NodeView, local: LocalPorts) -> JsonView {
    JsonView::object()
        .with("services"@, JsonView::object()
            .with("mgmt"@, number(node.port as nat))
            .with("kv"@, number(local.kv_port_of(node) as nat))
            .with("n1ql"@, number(node.port as nat))
            .with("capi"@, number(node.port as nat)))
        .with("thisNode"@, JsonView::Bool(node.name == local.node_name@))
        .with("hostname"@, JsonView::Text(node_address(node)))
}

/// The services of a node and their ports, as the bucket configuration has them.
pub fn bucket_node_services(node: &ClusterNode, local: &LocalPorts) -> (r: Json)
    requires
        local.fits(node@),
    ensures
        r@ == bucket_node(node@, *local),
{
    Json::object()
        .with("services", Json::object()
            .with("mgmt", json_number(node.port as u64))
            .with("kv", json_number(local.kv_port(node) as u64))
            .with("n1ql", json_number(node.port as u64))
            .with("capi", json_number(node.port as u64)))
        .with("thisNode", Json::Bool(same_text(node.name.as_str(), local.node_name.as_str())))
        .with("hostname", json_text(make_node_address(node).as_str()))
}

/// All services of a node and their ports.
pub open spec fn service_node(node: NodeView, local: LocalPorts) -> JsonView {
    JsonView::object()
        .with("services"@, JsonView::object()
            .with("mgmt"@, number(node.port as nat))
            .with("kv"@, number(local.kv_port_of(node) as nat))
            .with("n1ql"@, number(node.port as nat))
            .with("fts"@, number(node.port as nat))
            .with("capi"@, number(node.port as nat))
            .with("indexAdmin"@, number(node.port as nat))
            .with("indexScan"@, number(node.port as nat))
            .with("indexHttp"@, number(node.port as nat)))
        .with("thisNode"@, JsonView::Bool(node.name == local.node_name@))
        .with("hostname"@, JsonView::Text(node_address(node)))
}

/// All services of a node and their ports.
pub fn all_node_services(node: &ClusterNode, local: &LocalPorts) -> (r: Json)
    requires
        local.fits(node@),
    ensures
        r@ == service_node(node@, *local),
{
    Json::object()
        .with("services", Json::object()
            .with("mgmt", json_number(node.port as u64))
            .with("kv", json_number(local.kv_port(node) as u64))
            .with("n1ql", json_number(node.port as u64))
            .with("fts", json_number(node.port as u64))
            .with("capi", json_number(node.port as u64))
            .with("indexAdmin", json_number(node.port as u64))
            .with("indexScan", json_number(node.port as u64))
            .with("indexHttp", json_number(node.port as u64)))
        .with("thisNode", Json::Bool(same_text(node.name.as_str(), local.node_name.as_str())))
        .with("hostname", json_text(make_node_address(node).as_str()))
}

/// The services of a node and their ports, as the key-value service tells them.
pub open spec fn kv_node(node: NodeView, local: LocalPorts) -> JsonView {
    JsonView::object()
        .with("services"@, JsonView::object()
            .with("mgmt"@, number(node.port as nat))
            .with("kv"@, number(local.kv_port_of(node) as nat))
            .with("n1ql"@, number(node.port as nat))
            .with("capi"@, number(node.port as nat)))
        .with("thisNode"@, JsonView::Bool(node.name == local.node_name@))
        .with("hostname"@, JsonView::Text(reachable_host(node.hostname)))
}

/// The services of a node and their ports, as the key-value service tells them.
pub fn kv_node_services(node: &ClusterNode, local: &LocalPorts) -> (r: Json)
    requires
        local.fits(node@),
    ensures
        r@ == kv_node(node@, *local),
{
    Json::object()
        .with("services", Json::object()
            .with("mgmt", json_number(node.port as u64))
            .with("kv", json_number(local.kv_port(node) as u64))
            .with("n1ql", json_number(node.port as u64))
            .with("capi", json_number(node.port as u64)))
        .with("thisNode", Json::Bool(same_text(node.name.as_str(), local.node_name.as_str())))
        .with("hostname", json_text(effective_hostname(node.hostname.as_str())))
}

/// A node in the bucket configuration that the key-value service tells.
pub open spec fn kv_bucket_node_json(
    node: NodeView,
    local: LocalPorts,
    bucket: Seq<char>,
) -> JsonView {
    JsonView::object()
        .with("couchApiBase"@, JsonView::Text(node_url(node, bucket)))
        .with("hostname"@, JsonView::Text(node_address(node)))
        .with("status"@, JsonView::Text(health_word(node.status)))
        .with("ports"@, JsonView::object()
            .with("direct"@, number(local.kv_port_of(node) as nat)))
        .with(
            "services"@,
            JsonView::array()
                .item(JsonView::Text("kv"@))
                .item(JsonView::Text("n1ql"@))
                .item(JsonView::Text("index"@)),
        )
        .with("clusterCompatibility"@, number(458752))
}

/// A node in the bucket configuration that the key-value service tells.
pub fn kv_bucket_node(node: &ClusterNode, local: &LocalPorts, bucket: &str) -> (r: Json)
    requires
        local.fits(node@),
    ensures
        r@ == kv_bucket_node_json(node@, *local, bucket@),
{
    Json::object()
        .with("couchApiBase", json_text(make_node_url(node, bucket).as_str()))
        .with("hostname", json_text(make_node_address(node).as_str()))
        .with("status", json_text(health_text(node.status)))
        .with("ports", Json::object()
            .with("direct", json_number(local.kv_port(node) as u64)))
        .with(
            "services",
            Json::array()
                .item(json_text("kv"))
                .item(json_text("n1ql"))
                .item(json_text("index")),
        )
        .with("clusterCompatibility", json_number(458752))
}

/// The list of nodes.
pub open spec fn nodes_json(nodes: Seq<NodeView>, local: LocalPorts) -> Seq<JsonView> {
    Seq::new(nodes.len(), |i: int| node_json(nodes[i], local))
}

fn make_nodes(nodes: &Vec<ClusterNode>, local: &LocalPorts) -> (r: Json)
    requires
        local.fit_all(node_views(nodes@)),
    ensures
        r@ == JsonView::Array(nodes_json(node_views(nodes@), *local)),
{
    let ghost views = node_views(nodes@);
    let mut out = Json::array();
    let mut k: usize = 0;
    assert(nodes_json(views.take(0), *local) =~= Seq::<JsonView>::empty());
    while k < nodes.len()
        invariant
            k <= nodes@.len(),
            views == node_views(nodes@),
            local.fit_all(views),
            out@ == JsonView::Array(nodes_json(views.take(k as int), *local)),
        decreases nodes@.len() - k,
    {
        assert(views[k as int] == nodes@[k as int]@);
        out = out.item(build_node_json(&nodes[k], local));
        assert(nodes_json(views.take(k + 1), *local) =~= nodes_json(views.take(k as int), *local).push(
            node_json(views[k as int], *local),
        ));
        k = k + 1;
    }
    assert(views.take(k as int) =~= views);
    out
}

/// The services of the nodes, as the bucket configuration has them.
pub open spec fn bucket_nodes(nodes: Seq<NodeView>, local: LocalPorts) -> Seq<JsonView> {
    Seq::new(nodes.len(), |i: int| bucket_node(nodes[i], local))
}

fn make_bucket_nodes(nodes: &Vec<ClusterNode>, local: &LocalPorts) -> (r: Json)
    requires
        local.fit_all(node_views(nodes@)),
    ensures
        r@ == JsonView::Array(bucket_nodes(node_views(nodes@), *local)),
{
    let ghost views = node_views(nodes@);
    let mut out = Json::array();
    let mut k: usize = 0;
    assert(bucket_nodes(views.take(0), *local) =~= Seq::<JsonView>::empty());
    while k < nodes.len()
        invariant
            k <= nodes@.len(),
            views == node_views(nodes@),
            local.fit_all(views),
            out@ == JsonView::Array(bucket_nodes(views.take(k as int), *local)),
        decreases nodes@.len() - k,
    {
        assert(views[k as int] == nodes@[k as int]@);
        out = out.item(bucket_node_services(&nodes[k], local));
        assert(bucket_nodes(views.take(k + 1), *local) =~= bucket_nodes(views.take(k as int), *local).push(
            bucket_node(views[k as int], *local),
        ));
        k = k + 1;
    }
    assert(views.take(k as int) =~= views);
    out
}

/// All services of the nodes.
pub open spec fn service_nodes(nodes: Seq<NodeView>, local: LocalPorts) -> Seq<JsonView> {
    Seq::new(nodes.len(), |i: int| service_node(nodes[i], local))
}

fn make_service_nodes(nodes: &Vec<ClusterNode>, local: &LocalPorts) -> (r: Json)
    requires
        local.fit_all(node_views(nodes@)),
    ensures
        r@ == JsonView::Array(service_nodes(node_views(nodes@), *local)),
{
    let ghost views = node_views(nodes@);
    let mut out = Json::array();
    let mut k: usize = 0;
    assert(service_nodes(views.take(0), *local) =~= Seq::<JsonView>::empty());
    while k < nodes.len()
        invariant
            k <= nodes@.len(),
            views == node_views(nodes@),
            local.fit_all(views),
            out@ == JsonView::Array(service_nodes(views.take(k as int), *local)),
        decreases nodes@.len() - k,
    {
        assert(views[k as int] == nodes@[k as int]@);
        out = out.item(all_node_services(&nodes[k], local));
        assert(service_nodes(views.take(k + 1), *local) =~= service_nodes(views.take(k as int), *local).push(
            service_node(views[k as int], *local),
        ));
        k = k + 1;
    }
    assert(views.take(k as int) =~= views);
    out
}

/// The services of the nodes, as the key-value service tells them.
pub open spec fn kv_nodes(nodes: Seq<NodeView>, local: LocalPorts) -> Seq<JsonView> {
    Seq::new(nodes.len(), |i: int| kv_node(nodes[i], local))
}

fn make_kv_nodes(nodes: &Vec<ClusterNode>, local: &LocalPorts) -> (r: Json)
    requires
        local.fit_all(node_views(nodes@)),
    ensures
        r@ == JsonView::Array(kv_nodes(node_views(nodes@), *local)),
{
    let ghost views = node_views(nodes@);
    let mut out = Json::array();
    let mut k: usize = 0;
    assert(kv_nodes(views.take(0), *local) =~= Seq::<JsonView>::empty());
    while k < nodes.len()
        invariant
            k <= nodes@.len(),
            views == node_views(nodes@),
            local.fit_all(views),
            out@ == JsonView::Array(kv_nodes(views.take(k as int), *local)),
        decreases nodes@.len() - k,
    {
        assert(views[k as int] == nodes@[k as int]@);
        out = out.item(kv_node_services(&nodes[k], local));
        assert(kv_nodes(views.take(k + 1), *local) =~= kv_nodes(views.take(k as int), *local).push(
            kv_node(views[k as int], *local),
        ));
        k = k + 1;
    }
    assert(views.take(k as int) =~= views);
    out
}

/// The nodes in the bucket configuration that the key-value service tells.
pub open spec fn kv_bucket_nodes(
    nodes: Seq<NodeView>,
    local: LocalPorts,
    bucket: Seq<char>,
) -> Seq<JsonView> {
    Seq::new(nodes.len(), |i: int| kv_bucket_node_json(nodes[i], local, bucket))
}

fn make_kv_bucket_nodes(nodes: &Vec<ClusterNode>, local: &LocalPorts, bucket: &str) -> (r: Json)
    requires
        local.fit_all(node_views(nodes@)),
    ensures
        r@ == JsonView::Array(kv_bucket_nodes(node_views(nodes@), *local, bucket@)),
{
    let ghost views = node_views(nodes@);
    let mut out = Json::array();
    let mut k: usize = 0;
    assert(kv_bucket_nodes(views.take(0), *local, bucket@) =~= Seq::<JsonView>::empty());
    while k < nodes.len()
        invariant
            k <= nodes@.len(),
            views == node_views(nodes@),
            local.fit_all(views),
            out@ == JsonView::Array(kv_bucket_nodes(views.take(k as int), *local, bucket@)),
        decreases nodes@.len() - k,
    {
        assert(views[k as int] == nodes@[k as int]@);
        out = out.item(kv_bucket_node(&nodes[k], local, bucket));
        assert(kv_bucket_nodes(views.take(k + 1), *local, bucket@) =~= kv_bucket_nodes(views.take(k as int), *local, bucket@).push(
            kv_bucket_node_json(views[k as int], *local, bucket@),
        ));
        k = k + 1;
    }
    assert(views.take(k as int) =~= views);
    out
}

/// The way into the cluster.
pub open spec fn pools_json(host: Seq<char>, port: u16, uuid: Seq<char>) -> JsonView {
    JsonView::object()
        .with("isAdminCreds"@, JsonView::Bool(true))
        .with("isROAdminCreds"@, JsonView::Bool(false))
        .with("isEnterprise"@, JsonView::Bool(true))
        .with(
            "allowedServices"@,
            JsonView::array()
                .item(JsonView::Text("kv"@))
                .item(JsonView::Text("n1ql"@))
                .item(JsonView::Text("index"@))
                .item(JsonView::Text("fts"@))
                .item(JsonView::Text("cbas"@)),
        )
        .with("pools"@, JsonView::array().item(JsonView::object()
            .with("name"@, JsonView::Text("default"@))
            .with("uri"@, JsonView::Text("/pools/default?uuid=1"@))
            .with("streamingUri"@, JsonView::Text("/poolsStreaming/default?uuid=1"@))))
        .with("settings"@, JsonView::object()
            .with("maxParallelIndexers"@, JsonView::Text("/settings/maxParallelIndexers?uuid=1"@))
            .with("viewUpdateDaemon"@, JsonView::Text("/settings/viewUpdateDaemon?uuid=1"@)))
        .with("uuid"@, JsonView::Text(uuid))
        .with("implementationVersion"@, JsonView::Text("0.3.0-oxidedb"@))
        .with("componentsVersion"@, JsonView::object()
            .with("oxidedb"@, JsonView::Text("0.3.0"@))
            .with("rust"@, JsonView::Text("1.76+"@)))
        .with("hostname"@, JsonView::Text(address_of(reachable_host(host), port)))
}

/// The way into the cluster.
pub fn pools(host: &str, port: u16, uuid: &str) -> (r: Json)
    ensures
        r@ == pools_json(host@, port, uuid@),
{
    Json::object()
        .with("isAdminCreds", Json::Bool(true))
        .with("isROAdminCreds", Json::Bool(false))
        .with("isEnterprise", Json::Bool(true))
        .with(
            "allowedServices",
            Json::array()
                .item(json_text("kv"))
                .item(json_text("n1ql"))
                .item(json_text("index"))
                .item(json_text("fts"))
                .item(json_text("cbas")),
        )
        .with("pools", Json::array().item(Json::object()
            .with("name", json_text("default"))
            .with("uri", json_text("/pools/default?uuid=1"))
            .with("streamingUri", json_text("/poolsStreaming/default?uuid=1"))))
        .with("settings", Json::object()
            .with("maxParallelIndexers", json_text("/settings/maxParallelIndexers?uuid=1"))
            .with("viewUpdateDaemon", json_text("/settings/viewUpdateDaemon?uuid=1")))
        .with("uuid", json_text(uuid))
        .with("implementationVersion", json_text("0.3.0-oxidedb"))
        .with("componentsVersion", Json::object()
            .with("oxidedb", json_text("0.3.0"))
            .with("rust", json_text("1.76+")))
        .with("hostname", json_text(address(effective_hostname(host), port).as_str()))
}

/// The default pool.
pub open spec fn pool_json(
    nodes: Seq<NodeView>,
    local: LocalPorts,
    cluster: Seq<char>,
    buckets: u64,
) -> JsonView {
    JsonView::object()
        .with("name"@, JsonView::Text("default"@))
        .with("nodes"@, JsonView::Array(nodes_json(nodes, local)))
        .with("buckets"@, JsonView::object()
            .with("uri"@, JsonView::Text("/pools/default/buckets?v=1"@))
            .with("terseBucketsBase"@, JsonView::Text("/pools/default/b/"@))
            .with("terseClusterInfo"@, JsonView::Text("/pools/default/terseClusterInfo"@)))
        .with("controllers"@, JsonView::object()
            .with("addNode"@, JsonView::object()
                .with("uri"@, JsonView::Text("/controller/addNode"@)))
            .with("rebalance"@, JsonView::object()
                .with("uri"@, JsonView::Text("/controller/rebalance"@)))
            .with("failOver"@, JsonView::object()
                .with("uri"@, JsonView::Text("/controller/failOver"@)))
            .with("reAddNode"@, JsonView::object()
                .with("uri"@, JsonView::Text("/controller/reAddNode"@)))
            .with("ejectNode"@, JsonView::object()
                .with("uri"@, JsonView::Text("/controller/ejectNode"@))))
        .with("rebalanceStatus"@, JsonView::Text("none"@))
        .with("rebalanceProgressUri"@, JsonView::Text("/pools/default/rebalanceProgress"@))
        .with("storageTotals"@, JsonView::object()
            .with("ram"@, JsonView::object()
                .with("total"@, number(1073741824))
                .with("quotaTotal"@, number(536870912))
                .with("quotaUsed"@, number(268435456))
                .with("used"@, number(268435456))
                .with("usedByData"@, number(134217728)))
            .with("hdd"@, JsonView::object()
                .with("total"@, number(10737418240))
                .with("quotaTotal"@, number(5368709120))
                .with("used"@, number(1073741824))
                .with("usedByData"@, number(536870912))
                .with("free"@, number(4294967296))))
        .with("maxBucketCount"@, number(30))
        .with("clusterName"@, JsonView::Text(cluster))
        .with("balanced"@, JsonView::Bool(true))
        .with("failoverWarnings"@, JsonView::array())
        .with("alerts"@, JsonView::array())
        .with("alertsSilenceURL"@, JsonView::Text("/controller/resetAlerts?uuid=1"@))
        .with("serverGroupsUri"@, JsonView::Text("/pools/default/serverGroups?v=1"@))
        .with("bucketCount"@, number(buckets as nat))
}

/// The default pool.
pub fn pools_default(
    nodes: &Vec<ClusterNode>,
    local: &LocalPorts,
    cluster: &str,
    buckets: u64,
) -> (r: Json)
    requires
        local.fit_all(node_views(nodes@)),
    ensures
        r@ == pool_json(node_views(nodes@), *local, cluster@, buckets),
{
    Json::object()
        .with("name", json_text("default"))
        .with("nodes", make_nodes(nodes, local))
        .with("buckets", Json::object()
            .with("uri", json_text("/pools/default/buckets?v=1"))
            .with("terseBucketsBase", json_text("/pools/default/b/"))
            .with("terseClusterInfo", json_text("/pools/default/terseClusterInfo")))
        .with("controllers", Json::object()
            .with("addNode", Json::object()
                .with("uri", json_text("/controller/addNode")))
            .with("rebalance", Json::object()
                .with("uri", json_text("/controller/rebalance")))
            .with("failOver", Json::object()
                .with("uri", json_text("/controller/failOver")))
            .with("reAddNode", Json::object()
                .with("uri", json_text("/controller/reAddNode")))
            .with("ejectNode", Json::object()
                .with("uri", json_text("/controller/ejectNode"))))
        .with("rebalanceStatus", json_text("none"))
        .with("rebalanceProgressUri", json_text("/pools/default/rebalanceProgress"))
        .with("storageTotals", Json::object()
            .with("ram", Json::object()
                .with("total", json_number(1073741824))
                .with("quotaTotal", json_number(536870912))
                .with("quotaUsed", json_number(268435456))
                .with("used", json_number(268435456))
                .with("usedByData", json_number(134217728)))
            .with("hdd", Json::object()
                .with("total", json_number(10737418240))
                .with("quotaTotal", json_number(5368709120))
                .with("used", json_number(1073741824))
                .with("usedByData", json_number(536870912))
                .with("free", json_number(4294967296))))
        .with("maxBucketCount", json_number(30))
        .with("clusterName", json_text(cluster))
        .with("balanced", Json::Bool(true))
        .with("failoverWarnings", Json::array())
        .with("alerts", Json::array())
        .with("alertsSilenceURL", json_text("/controller/resetAlerts?uuid=1"))
        .with("serverGroupsUri", json_text("/pools/default/serverGroups?v=1"))
        .with("bucketCount", json_number(buckets))
}

/// What clients may ask of every bucket.
pub open spec fn bucket_capabilities() -> JsonView {
    JsonView::array()
        .item(JsonView::Text("collections"@))
        .item(JsonView::Text("durableWrite"@))
        .item(JsonView::Text("tombstonedUserXAttrs"@))
        .item(JsonView::Text("couchapi"@))
        .item(JsonView::Text("dcp"@))
        .item(JsonView::Text("cbhello"@))
        .item(JsonView::Text("touch"@))
        .item(JsonView::Text("cccp"@))
        .item(JsonView::Text("nodesExt"@))
        .item(JsonView::Text("xdcrCheckpointing"@))
        .item(JsonView::Text("xattr"@))
}

fn make_bucket_capabilities() -> (r: Json)
    ensures
        r@ == bucket_capabilities(),
{
    Json::array()
        .item(json_text("collections"))
        .item(json_text("durableWrite"))
        .item(json_text("tombstonedUserXAttrs"))
        .item(json_text("couchapi"))
        .item(json_text("dcp"))
        .item(json_text("cbhello"))
        .item(json_text("touch"))
        .item(json_text("cccp"))
        .item(json_text("nodesExt"))
        .item(json_text("xdcrCheckpointing"))
        .item(json_text("xattr"))
}

/// The configuration of a bucket.
pub open spec fn bucket_config_json(
    name: Seq<char>,
    map: PartitionMapView,
    nodes: Seq<NodeView>,
    local: LocalPorts,
    uuid: Seq<char>,
    docs: u64,
    bytes: u64,
) -> JsonView {
    JsonView::object()
        .with("name"@, JsonView::Text(name))
        .with("bucketType"@, JsonView::Text("membase"@))
        .with("authType"@, JsonView::Text("sasl"@))
        .with("saslPassword"@, JsonView::Text(""@))
        .with("proxyPort"@, number(0))
        .with("replicaIndex"@, JsonView::Bool(false))
        .with("uri"@, JsonView::Text("/pools/default/buckets/"@ + name))
        .with("streamingUri"@, JsonView::Text("/pools/default/bucketsStreaming/"@ + name))
        .with("localRandomKeyUri"@, JsonView::Text(bucket_path(name, "/localRandomKey"@)))
        .with("controllers"@, JsonView::object()
            .with("compactAll"@, JsonView::Text(bucket_path(name, "/controller/compactBucket"@)))
            .with("compactDB"@, JsonView::Text(bucket_path(name, "/controller/compactDatabases"@)))
            .with("purgeDeletes"@, JsonView::Text(bucket_path(name, "/controller/unsafePurgeBucket"@)))
            .with("startRecovery"@, JsonView::Text(bucket_path(name, "/controller/startRecovery"@))))
        .with("nodes"@, JsonView::Array(nodes_json(nodes, local)))
        .with("nodesExt"@, JsonView::Array(bucket_nodes(nodes, local)))
        .with("stats"@, JsonView::object()
            .with("uri"@, JsonView::Text(bucket_path(name, "/stats"@)))
            .with("directoryURI"@, JsonView::Text(bucket_path(name, "/stats/Directory"@)))
            .with("nodeStatsListURI"@, JsonView::Text(bucket_path(name, "/nodes"@))))
        .with("nodeLocator"@, JsonView::Text("vbucket"@))
        .with("uuid"@, JsonView::Text(uuid))
        .with("ddocs"@, JsonView::object()
            .with("uri"@, JsonView::Text(bucket_path(name, "/ddocs"@))))
        .with("vBucketServerMap"@, JsonView::object()
            .with("hashAlgorithm"@, JsonView::Text("CRC"@))
            .with("numReplicas"@, number(map.num_replicas as nat))
            .with("serverList"@, JsonView::Array(text_items(servers_in(local, nodes))))
            .with("vBucketMap"@, JsonView::Array(map_rows(names_in(nodes), map))))
        .with("bucketCapabilitiesVer"@, JsonView::Text(""@))
        .with("bucketCapabilities"@, bucket_capabilities())
        .with("clusterCapabilitiesVer"@, JsonView::array().item(number(1)).item(number(0)))
        .with("clusterCapabilities"@, JsonView::object()
            .with("n1ql"@, JsonView::array().item(JsonView::Text("enhancedPreparedStatements"@))))
        .with("collectionsManifestUid"@, JsonView::Text("0"@))
        .with("maxTTL"@, number(0))
        .with("compressionMode"@, JsonView::Text("passive"@))
        .with("replicaNumber"@, number(map.num_replicas as nat))
        .with("threadsNumber"@, number(3))
        .with("quota"@, JsonView::object()
            .with("ram"@, number(268435456))
            .with("rawRAM"@, number(268435456)))
        .with("basicStats"@, JsonView::object()
            .with("quotaPercentUsed"@, JsonView::Number("10.0"@))
            .with("opsPerSec"@, number(0))
            .with("diskFetches"@, number(0))
            .with("itemCount"@, number(docs as nat))
            .with("diskUsed"@, number(bytes as nat))
            .with("dataUsed"@, number(bytes as nat))
            .with("memUsed"@, number(bytes as nat))
            .with("vbActiveNumNonResident"@, number(0)))
        .with("evictionPolicy"@, JsonView::Text("valueOnly"@))
        .with("conflictResolutionType"@, JsonView::Text("seqno"@))
        .with("durabilityMinLevel"@, JsonView::Text("none"@))
        .with("pitrEnabled"@, JsonView::Bool(false))
        .with("pitrGranularity"@, number(600))
        .with("pitrMaxHistoryAge"@, number(86400))
        .with("autoCompactionSettings"@, JsonView::Bool(false))
        .with("storageBackend"@, JsonView::Text("couchstore"@))
}

/// The configuration of a bucket.
pub fn build_bucket_config(
    name: &str,
    map: &PartitionMap,
    nodes: &Vec<ClusterNode>,
    local: &LocalPorts,
    uuid: &str,
    docs: u64,
    bytes: u64,
) -> (r: Json)
    requires
        local.fit_all(node_views(nodes@)),
        nodes@.len() <= i32::MAX,
    ensures
        r@ == bucket_config_json(name@, map@, node_views(nodes@), *local, uuid@, docs, bytes),
{
    Json::object()
        .with("name", json_text(name))
        .with("bucketType", json_text("membase"))
        .with("authType", json_text("sasl"))
        .with("saslPassword", json_text(""))
        .with("proxyPort", json_number(0))
        .with("replicaIndex", Json::Bool(false))
        .with("uri", json_text(make_bucket_uri(name).as_str()))
        .with("streamingUri", json_text(make_streaming_uri(name).as_str()))
        .with("localRandomKeyUri", json_text(make_bucket_path(name, "/localRandomKey").as_str()))
        .with("controllers", Json::object()
            .with("compactAll", json_text(make_bucket_path(name, "/controller/compactBucket").as_str()))
            .with("compactDB", json_text(make_bucket_path(name, "/controller/compactDatabases").as_str()))
            .with("purgeDeletes", json_text(make_bucket_path(name, "/controller/unsafePurgeBucket").as_str()))
            .with("startRecovery", json_text(make_bucket_path(name, "/controller/startRecovery").as_str())))
        .with("nodes", make_nodes(nodes, local))
        .with("nodesExt", make_bucket_nodes(nodes, local))
        .with("stats", Json::object()
            .with("uri", json_text(make_bucket_path(name, "/stats").as_str()))
            .with("directoryURI", json_text(make_bucket_path(name, "/stats/Directory").as_str()))
            .with("nodeStatsListURI", json_text(make_bucket_path(name, "/nodes").as_str())))
        .with("nodeLocator", json_text("vbucket"))
        .with("uuid", json_text(uuid))
        .with("ddocs", Json::object()
            .with("uri", json_text(make_bucket_path(name, "/ddocs").as_str())))
        .with("vBucketServerMap", Json::object()
            .with("hashAlgorithm", json_text("CRC"))
            .with("numReplicas", json_number(map.num_replicas as u64))
            .with("serverList", make_server_list(local, nodes))
            .with("vBucketMap", make_map_rows(map, nodes)))
        .with("bucketCapabilitiesVer", json_text(""))
        .with("bucketCapabilities", make_bucket_capabilities())
        .with("clusterCapabilitiesVer", Json::array().item(json_number(1)).item(json_number(0)))
        .with("clusterCapabilities", Json::object()
            .with("n1ql", Json::array().item(json_text("enhancedPreparedStatements"))))
        .with("collectionsManifestUid", json_text("0"))
        .with("maxTTL", json_number(0))
        .with("compressionMode", json_text("passive"))
        .with("replicaNumber", json_number(map.num_replicas as u64))
        .with("threadsNumber", json_number(3))
        .with("quota", Json::object()
            .with("ram", json_number(268435456))
            .with("rawRAM", json_number(268435456)))
        .with("basicStats", Json::object()
            .with("quotaPercentUsed", Json::Number("10.0".to_owned()))
            .with("opsPerSec", json_number(0))
            .with("diskFetches", json_number(0))
            .with("itemCount", json_number(docs))
            .with("diskUsed", json_number(bytes))
            .with("dataUsed", json_number(bytes))
            .with("memUsed", json_number(bytes))
            .with("vbActiveNumNonResident", json_number(0)))
        .with("evictionPolicy", json_text("valueOnly"))
        .with("conflictResolutionType", json_text("seqno"))
        .with("durabilityMinLevel", json_text("none"))
        .with("pitrEnabled", Json::Bool(false))
        .with("pitrGranularity", json_number(600))
        .with("pitrMaxHistoryAge", json_number(86400))
        .with("autoCompactionSettings", Json::Bool(false))
        .with("storageBackend", json_text("couchstore"))
}

/// The configuration of a bucket that the key-value service tells.
pub open spec fn kv_bucket_config(
    name: Seq<char>,
    map: PartitionMapView,
    nodes: Seq<NodeView>,
    local: LocalPorts,
    uuid: Seq<char>,
    docs: u64,
) -> JsonView {
    JsonView::object()
        .with("rev"@, number(map.revision as nat))
        .with("revEpoch"@, number(1))
        .with("name"@, JsonView::Text(name))
        .with("uri"@, JsonView::Text("/pools/default/buckets/"@ + name))
        .with("streamingUri"@, JsonView::Text("/pools/default/bucketsStreaming/"@ + name))
        .with("nodes"@, JsonView::Array(kv_bucket_nodes(nodes, local, name)))
        .with("nodesExt"@, JsonView::Array(kv_nodes(nodes, local)))
        .with("bucketType"@, JsonView::Text("membase"@))
        .with("authType"@, JsonView::Text("sasl"@))
        .with("saslPassword"@, JsonView::Text(""@))
        .with("nodeLocator"@, JsonView::Text("vbucket"@))
        .with("uuid"@, JsonView::Text(uuid))
        .with("collectionsManifestUid"@, JsonView::Text("0"@))
        .with("bucketCapabilitiesVer"@, JsonView::Text(""@))
        .with("bucketCapabilities"@, bucket_capabilities())
        .with("vBucketServerMap"@, JsonView::object()
            .with("hashAlgorithm"@, JsonView::Text("CRC"@))
            .with("numReplicas"@, number(map.num_replicas as nat))
            .with("serverList"@, JsonView::Array(text_items(servers_in(local, nodes))))
            .with("vBucketMap"@, JsonView::Array(map_rows(names_in(nodes), map))))
        .with("clusterCapabilitiesVer"@, JsonView::array().item(number(1)).item(number(0)))
        .with("clusterCapabilities"@, JsonView::object()
            .with("n1ql"@, JsonView::array().item(JsonView::Text("enhancedPreparedStatements"@))))
        .with("itemCount"@, number(docs as nat))
}

/// The configuration of a bucket that the key-value service tells.
pub fn build_bucket_cluster_config(
    name: &str,
    map: &PartitionMap,
    nodes: &Vec<ClusterNode>,
    local: &LocalPorts,
    uuid: &str,
    docs: u64,
) -> (r: Json)
    requires
        local.fit_all(node_views(nodes@)),
        nodes@.len() <= i32::MAX,
    ensures
        r@ == kv_bucket_config(name@, map@, node_views(nodes@), *local, uuid@, docs),
{
    Json::object()
        .with("rev", json_number(map.revision))
        .with("revEpoch", json_number(1))
        .with("name", json_text(name))
        .with("uri", json_text(make_bucket_uri(name).as_str()))
        .with("streamingUri", json_text(make_streaming_uri(name).as_str()))
        .with("nodes", make_kv_bucket_nodes(nodes, local, name))
        .with("nodesExt", make_kv_nodes(nodes, local))
        .with("bucketType", json_text("membase"))
        .with("authType", json_text("sasl"))
        .with("saslPassword", json_text(""))
        .with("nodeLocator", json_text("vbucket"))
        .with("uuid", json_text(uuid))
        .with("collectionsManifestUid", json_text("0"))
        .with("bucketCapabilitiesVer", json_text(""))
        .with("bucketCapabilities", make_bucket_capabilities())
        .with("vBucketServerMap", Json::object()
            .with("hashAlgorithm", json_text("CRC"))
            .with("numReplicas", json_number(map.num_replicas as u64))
            .with("serverList", make_server_list(local, nodes))
            .with("vBucketMap", make_map_rows(map, nodes)))
        .with("clusterCapabilitiesVer", Json::array().item(json_number(1)).item(json_number(0)))
        .with("clusterCapabilities", Json::object()
            .with("n1ql", Json::array().item(json_text("enhancedPreparedStatements"))))
        .with("itemCount", json_number(docs))
}

/// The nodes of the cluster, as the key-value service tells them before a bucket is selected.
pub open spec fn kv_global_config(
    revision: u64,
    nodes: Seq<NodeView>,
    local: LocalPorts,
) -> JsonView {
    JsonView::object()
        .with("rev"@, number(revision as nat))
        .with("revEpoch"@, number(1))
        .with("nodesExt"@, JsonView::Array(kv_nodes(nodes, local)))
        .with("clusterCapabilitiesVer"@, JsonView::array().item(number(1)).item(number(0)))
        .with("clusterCapabilities"@, JsonView::object()
            .with("n1ql"@, JsonView::array().item(JsonView::Text("enhancedPreparedStatements"@))))
}

/// The nodes of the cluster, as the key-value service tells them before a bucket is selected.
pub fn build_global_cluster_config(
    revision: u64,
    nodes: &Vec<ClusterNode>,
    local: &LocalPorts,
) -> (r: Json)
    requires
        local.fit_all(node_views(nodes@)),
    ensures
        r@ == kv_global_config(revision, node_views(nodes@), *local),
{
    Json::object()
        .with("rev", json_number(revision))
        .with("revEpoch", json_number(1))
        .with("nodesExt", make_kv_nodes(nodes, local))
        .with("clusterCapabilitiesVer", Json::array().item(json_number(1)).item(json_number(0)))
        .with("clusterCapabilities", Json::object()
            .with("n1ql", Json::array().item(json_text("enhancedPreparedStatements"))))
}

/// What the key-value service tells a client: of its bucket if it has selected one, else of the
/// nodes alone.
pub fn cluster_config(
    selected: &Option<String>,
    map: &PartitionMap,
    nodes: &Vec<ClusterNode>,
    local: &LocalPorts,
    uuid: &str,
    docs: u64,
) -> (r: Json)
    requires
        local.fit_all(node_views(nodes@)),
        nodes@.len() <= i32::MAX,
    ensures
        r@ == match *selected {
            Some(name) => kv_bucket_config(
                name@,
                map@,
                node_views(nodes@),
                *local,
                uuid@,
                docs,
            ),
            None => kv_global_config(map@.revision, node_views(nodes@), *local),
        },
{
    match selected {
        Some(name) => build_bucket_cluster_config(name.as_str(), map, nodes, local, uuid, docs),
        None => build_global_cluster_config(map.revision, nodes, local),
    }
}

/// The services of all nodes.
pub open spec fn services_json(revision: u64, nodes: Seq<NodeView>, local: LocalPorts) -> JsonView {
    JsonView::object()
        .with("rev"@, number(revision as nat))
        .with("nodesExt"@, JsonView::Array(service_nodes(nodes, local)))
        .with("clusterCapabilitiesVer"@, JsonView::array().item(number(1)).item(number(0)))
        .with("clusterCapabilities"@, JsonView::object()
            .with("n1ql"@, JsonView::array().item(JsonView::Text("enhancedPreparedStatements"@))))
}

/// The services of all nodes.
pub fn node_services(revision: u64, nodes: &Vec<ClusterNode>, local: &LocalPorts) -> (r: Json)
    requires
        local.fit_all(node_views(nodes@)),
    ensures
        r@ == services_json(revision, node_views(nodes@), *local),
{
    Json::object()
        .with("rev", json_number(revision))
        .with("nodesExt", make_service_nodes(nodes, local))
        .with("clusterCapabilitiesVer", Json::array().item(json_number(1)).item(json_number(0)))
        .with("clusterCapabilities", Json::object()
            .with("n1ql", Json::array().item(json_text("enhancedPreparedStatements"))))
}

/// The user that asks.
pub open spec fn whoami_json(host: Seq<char>, port: u16, uuid: Seq<char>) -> JsonView {
    JsonView::object()
        .with("id"@, JsonView::Text("admin"@))
        .with("domain"@, JsonView::Text("local"@))
        .with("roles"@, JsonView::array().item(JsonView::object()
            .with("role"@, JsonView::Text("admin"@))).item(JsonView::object()
            .with("role"@, JsonView::Text("bucket_full_access"@))
            .with("bucket_name"@, JsonView::Text("*"@))).item(JsonView::object()
            .with("role"@, JsonView::Text("cluster_admin"@))))
        .with("name"@, JsonView::Text("Administrator"@))
        .with("password_change_date"@, JsonView::Text("2026-01-01T00:00:00.000000000+00:00"@))
        .with("uuid"@, JsonView::Text(uuid))
        .with("hostname"@, JsonView::Text(address_of(reachable_host(host), port)))
}

/// The user that asks.
pub fn whoami(host: &str, port: u16, uuid: &str) -> (r: Json)
    ensures
        r@ == whoami_json(host@, port, uuid@),
{
    Json::object()
        .with("id", json_text("admin"))
        .with("domain", json_text("local"))
        .with("roles", Json::array().item(Json::object()
            .with("role", json_text("admin"))).item(Json::object()
            .with("role", json_text("bucket_full_access"))
            .with("bucket_name", json_text("*"))).item(Json::object()
            .with("role", json_text("cluster_admin"))))
        .with("name", json_text("Administrator"))
        .with("password_change_date", json_text("2026-01-01T00:00:00.000000000+00:00"))
        .with("uuid", json_text(uuid))
        .with("hostname", json_text(address(effective_hostname(host), port).as_str()))
}

/// A sign of life.
pub open spec fn ping_json() -> JsonView {
    JsonView::object()
        .with("status"@, JsonView::Text("ok"@))
        .with("revision"@, number(1))
}

/// A sign of life.
pub fn admin_ping() -> (r: Json)
    ensures
        r@ == ping_json(),
{
    Json::object()
        .with("status", json_text("ok"))
        .with("revision", json_number(1))
}

/// The answer to a query that failed.
pub open spec fn failure_json(code: u64, message: Seq<char>) -> JsonView {
    JsonView::object()
        .with("status"@, JsonView::Text("fatal"@))
        .with("errors"@, JsonView::array().item(JsonView::object()
            .with("code"@, number(code as nat))
            .with("msg"@, JsonView::Text(message))))
}

/// The answer to a query that failed.
pub fn query_failure(code: u64, message: &str) -> (r: Json)
    ensures
        r@ == failure_json(code, message@),
{
    Json::object()
        .with("status", json_text("fatal"))
        .with("errors", Json::array().item(Json::object()
            .with("code", json_number(code))
            .with("msg", json_text(message))))
}

/// The digit value of a hexadecimal digit in either case.
pub open spec fn hex_value(c: char) -> Option<int> {
    if '0' <= c && c <= '9' {
        Some(c as int - 48)
    } else if 'a' <= c && c <= 'f' {
        Some(c as int - 87)
    } else if 'A' <= c && c <= 'F' {
        Some(c as int - 55)
    } else {
        None
    }
}

/// The number that at most two characters behind a percent sign stand for; a plus sign may stand
/// before a single digit.
pub open spec fn escape_value(t: Seq<char>) -> Option<int> {
    if t.len() == 1 {
        hex_value(t[0])
    } else if t.len() == 2 {
        match (hex_value(t[0]), hex_value(t[1])) {
            (Some(a), Some(b)) => Some(16 * a + b),
            (None, Some(b)) => if t[0] == '+' {
                Some(b)
            } else {
                None
            },
            _ => None,
        }
    } else {
        None
    }
}

/// Where the escape that begins behind place `i` ends.
pub open spec fn escape_end(n: int, i: int) -> int {
    if i + 2 < n {
        i + 2
    } else {
        n
    }
}

/// What the text from place `i` on stands for.
pub open spec fn decoded_from(s: Seq<char>, i: int) -> Seq<char>
    decreases s.len() - i,
{
    if i < 0 || i >= s.len() {
        Seq::empty()
    } else if s[i] == '+' {
        seq![' '] + decoded_from(s, i + 1)
    } else if s[i] == '%' {
        let end = escape_end(s.len() as int, i + 1);
        let rest = decoded_from(s, end);
        match escape_value(s.subrange(i + 1, end)) {
            Some(v) => seq![v as u8 as char] + rest,
            None => rest,
        }
    } else {
        seq![s[i]] + decoded_from(s, i + 1)
    }
}

fn hex_digit_value(c: char) -> (r: Option<u8>)
    ensures
        match r {
            Some(v) => hex_value(c) == Some(v as int) && v < 16,
            None => hex_value(c) is None,
        },
{
    if '0' <= c && c <= '9' {
        Some((c as u32 - 48) as u8)
    } else if 'a' <= c && c <= 'f' {
        Some((c as u32 - 87) as u8)
    } else if 'A' <= c && c <= 'F' {
        Some((c as u32 - 55) as u8)
    } else {
        None
    }
}

fn read_escape(cs: &Vec<char>, from: usize, to: usize) -> (r: Option<u8>)
    requires
        from <= to <= cs@.len(),
        to <= from + 2,
    ensures
        match r {
            Some(v) => escape_value(cs@.subrange(from as int, to as int)) == Some(v as int),
            None => escape_value(cs@.subrange(from as int, to as int)) is None,
        },
{
    let ghost t = cs@.subrange(from as int, to as int);
    if to - from == 1 {
        assert(t[0] == cs@[from as int]);
        return hex_digit_value(cs[from]);
    }
    if to - from == 2 {
        assert(t[0] == cs@[from as int] && t[1] == cs@[from + 1]);
        return match (hex_digit_value(cs[from]), hex_digit_value(cs[from + 1])) {
            (Some(a), Some(b)) => Some(16 * a + b),
            (None, Some(b)) => if cs[from] == '+' {
                Some(b)
            } else {
                None
            },
            _ => None,
        };
    }
    None
}

/// What a form-encoded text stands for: plus signs stand for spaces, and a percent sign with a
/// number in hexadecimal for a character.
pub fn urlencoding_decode(s: &str) -> (r: String)
    ensures
        r@ == decoded_from(s@, 0),
{
    let cs = chars_of(s);
    let n: usize = cs.len();
    let mut out = String::new();
    let mut i: usize = 0;
    assert(out@ + decoded_from(s@, 0) =~= decoded_from(s@, 0));
    while i < n
        invariant
            i <= n,
            n == cs@.len(),
            cs@ == s@,
            decoded_from(s@, 0) == out@ + decoded_from(s@, i as int),
        decreases n - i,
    {
        let ghost prior = out@;
        let c = cs[i];
        if c == '+' {
            push_char(&mut out, ' ');
            i = i + 1;
            assert(prior + (seq![' '] + decoded_from(s@, i as int)) =~= out@ + decoded_from(
                s@,
                i as int,
            ));
        } else if c == '%' {
            let end: usize = if n - (i + 1) > 2 {
                i + 3
            } else {
                n
            };
            match read_escape(&cs, i + 1, end) {
                Some(v) => {
                    push_char(&mut out, v as char);
                    assert(prior + (seq![v as char] + decoded_from(s@, end as int)) =~= out@
                        + decoded_from(s@, end as int));
                },
                None => {},
            }
            i = end;
        } else {
            push_char(&mut out, c);
            i = i + 1;
            assert(prior + (seq![c] + decoded_from(s@, i as int)) =~= out@ + decoded_from(
                s@,
                i as int,
            ));
        }
    }
    assert(out@ + Seq::<char>::empty() =~= out@);
    out
}

/// A query.
#[derive(Debug)]
pub struct QueryRequest {
    pub statement: String,
    /// JSON text.
    pub params: Option<String>,
}

/// The text that a member of a JSON object holds, if `serde_json` reads the object and finds text
/// there.
pub uninterp spec fn json_text_member(body: Seq<char>, name: Seq<char>) -> Option<Seq<char>>;

/// The JSON text of a member of a JSON object, if `serde_json` reads the object and finds it.
pub uninterp spec fn json_member(body: Seq<char>, name: Seq<char>) -> Option<Seq<char>>;

/// The text that a member of a JSON object holds.
///
/// Trusted: what `serde_json::from_str`, `Value::get` and `Value::as_str` find depends on the text
/// and on the name alone.
#[verifier::external_body]
fn text_member(body: &str, name: &str) -> (r: Option<String>)
    ensures
        opt_text(r) == json_text_member(body@, name@),
{
    let value = serde_json::from_str::<serde_json::Value>(body).ok()?;
    Some(value.get(name)?.as_str()?.to_string())
}

/// The JSON text of a member of a JSON object.
///
/// Trusted: what `serde_json::from_str` and `Value::get` find, and the text that the value prints
/// as, depend on the text and on the name alone.
#[verifier::external_body]
fn member_text(body: &str, name: &str) -> (r: Option<String>)
    ensures
        opt_text(r) == json_member(body@, name@),
{
    let value = serde_json::from_str::<serde_json::Value>(body).ok()?;
    Some(value.get(name)?.to_string())
}

/// The statement in the parts of a form, from part `i` on.
pub open spec fn form_statement(parts: Seq<Seq<char>>, i: int) -> Seq<char>
    decreases parts.len() - i,
{
    if i < 0 || i >= parts.len() {
        Seq::empty()
    } else if starts_with(parts[i], "statement="@) {
        decoded_from(parts[i].subrange(10, parts[i].len() as int), 0)
    } else {
        form_statement(parts, i + 1)
    }
}

/// The statement of a query.
pub open spec fn statement_of(body: Seq<char>) -> Seq<char> {
    if starts_with(body, "{"@) {
        match json_text_member(body, "statement"@) {
            Some(t) => t,
            None => Seq::empty(),
        }
    } else {
        form_statement(split(body, '&'), 0)
    }
}

/// The parameters of a query: named ones before those without names.
pub open spec fn params_of(body: Seq<char>) -> Option<Seq<char>> {
    if !starts_with(body, "{"@) {
        None
    } else {
        match json_member(body, "named_params"@) {
            Some(t) => Some(t),
            None => json_member(body, "args"@),
        }
    }
}

/// The statement in the parts of a form.
fn find_statement(parts: &Vec<String>) -> (r: String)
    ensures
        r@ == form_statement(texts(parts@), 0),
{
    let ghost all = texts(parts@);
    let mut i: usize = 0;
    while i < parts.len()
        invariant
            i <= parts@.len(),
            all == texts(parts@),
            form_statement(all, 0) == form_statement(all, i as int),
        decreases parts@.len() - i,
    {
        assert(all[i as int] == parts@[i as int]@);
        if has_prefix(parts[i].as_str(), "statement=") {
            proof {
                reveal_strlit("statement=");
            }
            let tail = text_after(parts[i].as_str(), 10);
            return urlencoding_decode(tail.as_str());
        }
        i = i + 1;
    }
    String::new()
}

/// Reads a query, in JSON or form-encoded; one without a statement is answered at once.
pub fn read_query(body: &str) -> (r: std::result::Result<QueryRequest, Json>)
    ensures
        match r {
            Ok(q) => statement_of(body@).len() > 0 && q.statement@ == statement_of(body@)
                && opt_text(q.params) == params_of(body@),
            Err(answer) => statement_of(body@).len() == 0 && answer@ == failure_json(
                1000,
                "No statement provided"@,
            ),
        },
{
    let mut params: Option<String> = None;
    let statement = if has_prefix(body, "{") {
        params = member_text(body, "named_params");
        if params.is_none() {
            params = member_text(body, "args");
        }
        match text_member(body, "statement") {
            Some(t) => t,
            None => String::new(),
        }
    } else {
        let parts = split_on(body, '&');
        find_statement(&parts)
    };
    if statement.as_str().is_empty() {
        return Err(query_failure(1000, "No statement provided"));
    }
    Ok(QueryRequest { statement, params })
}

/// The answer to a query that the engine refused.
pub fn refused_query(message: &str) -> (r: Json)
    ensures
        r@ == failure_json(3000, message@),
{
    query_failure(3000, message)
}

/// A configuration as it is sent on a stream of configurations.
pub fn config_chunk(config: &str) -> (r: String)
    ensures
        r@ == config@ + "\n\n\n\n"@,
{
    let mut out = config.to_owned();
    out.append("\n\n\n\n");
    out
}

/// Characters that stand for themselves are decoded to themselves.
pub proof fn law_plain_text_is_kept(s: Seq<char>, i: int)
    requires
        0 <= i <= s.len(),
        forall|k: int| 0 <= k < s.len() ==> s[k] != '+' && s[k] != '%',
    ensures
        decoded_from(s, i) == s.subrange(i, s.len() as int),
    decreases s.len() - i,
{
    if i < s.len() {
        law_plain_text_is_kept(s, i + 1);
        assert(seq![s[i]] + s.subrange(i + 1, s.len() as int) =~= s.subrange(i, s.len() as int));
    } else {
        assert(s.subrange(i, s.len() as int) =~= Seq::<char>::empty());
    }
}

// ---- Laws ----

/// A plus sign stands for a space, and a percent sign with two digits for the character with that
/// number; what follows is read on from there.
pub proof fn law_escapes_stand_for_characters(a: char, b: char, rest: Seq<char>)
    requires
        '0' <= a <= '9' || 'a' <= a <= 'f' || 'A' <= a <= 'F',
        '0' <= b <= '9' || 'a' <= b <= 'f' || 'A' <= b <= 'F',
    ensures
        decoded_from(seq!['+'] + rest, 0) == seq![' '] + decoded_from(rest, 0),
        decoded_from(seq!['%', a, b] + rest, 0).len() == 1 + decoded_from(rest, 0).len(),
        decoded_from(seq!['%', a, b] + rest, 0).skip(1) == decoded_from(rest, 0),
        '0' <= a <= '9' && '0' <= b <= '9' ==> decoded_from(seq!['%', a, b] + rest, 0)[0] as int == 16 * (
        a as int - '0' as int) + (b as int - '0' as int),
        '0' <= a <= '9' && 'A' <= b <= 'F' ==> decoded_from(seq!['%', a, b] + rest, 0)[0] as int == 16 * (
        a as int - '0' as int) + (b as int - 'A' as int) + 10,
        '0' <= a <= '9' && 'a' <= b <= 'f' ==> decoded_from(seq!['%', a, b] + rest, 0)[0] as int == 16 * (
        a as int - '0' as int) + (b as int - 'a' as int) + 10,
        'A' <= a <= 'F' && '0' <= b <= '9' ==> decoded_from(seq!['%', a, b] + rest, 0)[0] as int == 16 * (
        a as int - 'A' as int + 10) + (b as int - '0' as int),
{
    let plus = seq!['+'] + rest;
    let s = seq!['%', a, b] + rest;
    lemma_decoded_shift(seq!['+'], rest, 0);
    lemma_decoded_shift(seq!['%', a, b], rest, 0);
    assert(plus[0] == '+');
    assert(s[0] == '%' && s[1] == a && s[2] == b);
    assert(escape_end(s.len() as int, 1) == 3);
    let t = s.subrange(1, 3);
    assert(t.len() == 2 && t[0] == a && t[1] == b);
    let v = escape_value(t)->0;
    assert(0 <= v < 256);
    let one = seq![v as u8 as char];
    assert((one + decoded_from(rest, 0)).skip(1) =~= decoded_from(rest, 0));
}

proof fn lemma_decoded_shift(p: Seq<char>, s: Seq<char>, i: int)
    requires
        0 <= i <= s.len(),
    ensures
        decoded_from(p + s, p.len() + i) == decoded_from(s, i),
    decreases s.len() - i,
{
    let all = p + s;
    let n = p.len() as int;
    if i < s.len() {
        assert(all[n + i] == s[i]);
        if s[i] == '%' {
            let end = escape_end(s.len() as int, i + 1);
            lemma_decoded_shift(p, s, end);
            assert(escape_end(all.len() as int, n + i + 1) == n + end);
            assert(all.subrange(n + i + 1, n + end) =~= s.subrange(i + 1, end));
        } else {
            lemma_decoded_shift(p, s, i + 1);
        }
    }
}

/// The statement of a form is what follows its name in the first part that has it.
pub proof fn law_first_statement_counts(
    a: Seq<Seq<char>>,
    text: Seq<char>,
    b: Seq<Seq<char>>,
)
    requires
        forall|i: int|
            0 <= i < a.len() ==> !((#[trigger] a[i]).len() >= 10 && a[i].take(10) == "statement="@),
    ensures
        form_statement(a + seq!["statement="@ + text] + b, 0) == decoded_from(text, 0),
        form_statement(a, 0) == Seq::<char>::empty(),
{
    reveal_strlit("statement=");
    let parts = a + seq!["statement="@ + text] + b;
    let n = a.len() as int;
    lemma_no_statement(parts, a, 0);
    lemma_no_statement(a, a, 0);
    let part = "statement="@ + text;
    assert(parts[n] == part);
    assert(part.subrange(0, 10) =~= "statement="@);
    assert(part.subrange(10, part.len() as int) =~= text);
}

proof fn lemma_no_statement(parts: Seq<Seq<char>>, a: Seq<Seq<char>>, i: int)
    requires
        0 <= i <= a.len() <= parts.len(),
        forall|k: int| 0 <= k < a.len() ==> parts[k] == #[trigger] a[k],
        forall|k: int|
            0 <= k < a.len() ==> !((#[trigger] a[k]).len() >= 10 && a[k].take(10) == "statement="@),
    ensures
        form_statement(parts, i) == form_statement(parts, a.len() as int),
    decreases a.len() - i,
{
    reveal_strlit("statement=");
    if i < a.len() {
        lemma_no_statement(parts, a, i + 1);
        assert(parts[i] == a[i]);
        if a[i].len() >= 10 {
            assert(a[i].take(10) =~= a[i].subrange(0, 10));
        }
    }
}

/// A query that starts with a brace is JSON, and anything else a form, whose parts are parted by
/// ampersands; only JSON has parameters, the named ones before the others.
pub proof fn law_queries_are_json_or_forms(body: Seq<char>)
    ensures
        body.len() > 0 && body[0] == '{' ==> statement_of(body) == match json_text_member(
            body,
            "statement"@,
        ) {
            Some(t) => t,
            None => Seq::<char>::empty(),
        },
        !(body.len() > 0 && body[0] == '{') ==> statement_of(body) == form_statement(
            split(body, '&'),
            0,
        ) && params_of(body) is None,
        body.len() > 0 && body[0] == '{' && json_member(body, "named_params"@) is Some ==> params_of(body)
            == json_member(body, "named_params"@),
        body.len() > 0 && body[0] == '{' && json_member(body, "named_params"@) is None ==> params_of(body)
            == json_member(body, "args"@),
{
    reveal_strlit("{");
    if body.len() > 0 {
        let head = body.subrange(0, 1);
        assert(head[0] == body[0]);
        assert("{"@[0] == '{');
        if body[0] == '{' {
            assert(head =~= "{"@);
        }
    }
}

/// The addresses of nodes: host and port, and the host that clients can reach.
pub proof fn law_node_addresses_can_be_reached(node: NodeView, path: Seq<char>)
    requires
        node.hostname != "0.0.0.0"@,
    ensures
        node_address(node) == node.hostname + ":"@ + dec(node.port as nat),
        node_url(node, path) == "http://"@ + (node.hostname + ":"@ + dec(node.port as nat)) + "/"@ + path,
{
}

/// The server list has the nodes in their order, and the vBucket map a row for every vBucket that
/// tells the places of its nodes in that list.
pub proof fn law_clients_find_the_vbuckets(
    local: LocalPorts,
    nodes: Seq<NodeView>,
    map: PartitionMapView,
    vb: int,
    i: int,
)
    requires
        0 <= vb < map.map.len(),
        0 <= i < nodes.len(),
        names_in(nodes).no_duplicates(),
        nodes[i].name == map.map[vb].active,
    ensures
        servers_in(local, nodes).len() == nodes.len(),
        servers_in(local, nodes)[i] == local.server_of(nodes[i]),
        map_rows(names_in(nodes), map).len() == map.map.len(),
        map_rows(names_in(nodes), map)[vb] is Array,
        map_rows(names_in(nodes), map)[vb]->Array_0[0] == JsonView::Number(dec(i as nat)),
        map_rows(names_in(nodes), map)[vb]->Array_0.len() >= 2,
{
    let names = names_in(nodes);
    assert(names[i] == nodes[i].name);
    law_entries_are_places(names, map.map[vb], i, 0);
    let places = server_indexes(names, map.map[vb]);
    assert(row(places)[0] == integer(places[0]));
}

/// A missing node stands as minus one, other places as their number.
pub proof fn law_places_are_written_as_integers(v: Seq<int>, i: int)
    requires
        0 <= i < v.len(),
    ensures
        row(v).len() == v.len(),
        v[i] >= 0 ==> row(v)[i] == JsonView::Number(dec(v[i] as nat)),
        v[i] == -1 ==> row(v)[i] == JsonView::Number("-"@ + dec(1)),
{
}

/// What clients are told about the services of a node: those of the REST interface on its port, the
/// key-value service on its own, and whether it is this node.
pub proof fn law_services_have_their_ports(node: NodeView, local: LocalPorts)
    ensures
        ({
            let rest = JsonView::Number(dec(node.port as nat));
            let kv = JsonView::Number(dec(local.kv_port_of(node) as nat));
            let few = seq![("mgmt"@, rest), ("kv"@, kv), ("n1ql"@, rest), ("capi"@, rest)];
            let all = seq![
                ("mgmt"@, rest),
                ("kv"@, kv),
                ("n1ql"@, rest),
                ("fts"@, rest),
                ("capi"@, rest),
                ("indexAdmin"@, rest),
                ("indexScan"@, rest),
                ("indexHttp"@, rest),
            ];
            let own = ("thisNode"@, JsonView::Bool(node.name == local.node_name@));
            let address = ("hostname"@, JsonView::Text(node_address(node)));
            let host = ("hostname"@, JsonView::Text(reachable_host(node.hostname)));
            &&& told(bucket_node(node, local), few, own, address)
            &&& told(service_node(node, local), all, own, address)
            &&& told(kv_node(node, local), few, own, host)
        }),
{
}

/// Whether three members are told of a node: its services, and two more.
pub open spec fn told(
    node: JsonView,
    services: Seq<(Seq<char>, JsonView)>,
    own: (Seq<char>, JsonView),
    host: (Seq<char>, JsonView),
) -> bool {
    &&& node is Object
    &&& node->Object_0.len() == 3
    &&& node->Object_0[0].0 == "services"@
    &&& node->Object_0[0].1 is Object
    &&& node->Object_0[0].1->Object_0 =~= services
    &&& node->Object_0[1] == own
    &&& node->Object_0[2] == host
}

/// Where clients find a key: by its hash in the map, whose rows tell places in the server list.
pub open spec fn server_map_members(
    map: PartitionMapView,
    nodes: Seq<NodeView>,
    local: LocalPorts,
) -> Seq<(Seq<char>, JsonView)> {
    seq![
        ("hashAlgorithm"@, JsonView::Text("CRC"@)),
        ("numReplicas"@, JsonView::Number(dec(map.num_replicas as nat))),
        ("serverList"@, JsonView::Array(text_items(servers_in(local, nodes)))),
        ("vBucketMap"@, JsonView::Array(map_rows(names_in(nodes), map))),
    ]
}

/// Where clients find the documents of a bucket: the servers, the vBucket map over them, how many
/// replicas there are, and the revision of all this.
pub proof fn law_configurations_hold_the_map(
    name: Seq<char>,
    map: PartitionMapView,
    nodes: Seq<NodeView>,
    local: LocalPorts,
    uuid: Seq<char>,
    docs: u64,
    bytes: u64,
)
    ensures
        ({
            let servers = JsonView::Object(server_map_members(map, nodes, local));
            let kv = kv_bucket_config(name, map, nodes, local, uuid, docs)->Object_0;
            let rest = bucket_config_json(name, map, nodes, local, uuid, docs, bytes)->Object_0;
            &&& kv.contains(("rev"@, JsonView::Number(dec(map.revision as nat))))
            &&& kv.contains(("name"@, JsonView::Text(name)))
            &&& kv.contains(("uuid"@, JsonView::Text(uuid)))
            &&& kv.contains(("vBucketServerMap"@, servers))
            &&& kv.contains(("itemCount"@, JsonView::Number(dec(docs as nat))))
            &&& kv.contains(("nodesExt"@, JsonView::Array(kv_nodes(nodes, local))))
            &&& rest.contains(("name"@, JsonView::Text(name)))
            &&& rest.contains(("uuid"@, JsonView::Text(uuid)))
            &&& rest.contains(("vBucketServerMap"@, servers))
            &&& rest.contains(("nodesExt"@, JsonView::Array(bucket_nodes(nodes, local))))
        }),
{
    let kv = kv_bucket_config(name, map, nodes, local, uuid, docs)->Object_0;
    let rest = bucket_config_json(name, map, nodes, local, uuid, docs, bytes)->Object_0;
    assert(kv[0] == ("rev"@, number(map.revision as nat)));
    assert(kv[2] == ("name"@, JsonView::Text(name)));
    assert(kv[6].0 == "nodesExt"@);
    assert(kv[11] == ("uuid"@, JsonView::Text(uuid)));
    assert(kv[15].0 == "vBucketServerMap"@);
    assert(kv[15].1->Object_0 =~= server_map_members(map, nodes, local));
    assert(kv[18] == ("itemCount"@, number(docs as nat)));
    assert(rest[0] == ("name"@, JsonView::Text(name)));
    assert(rest[11].0 == "nodesExt"@);
    assert(rest[14] == ("uuid"@, JsonView::Text(uuid)));
    assert(rest[16].0 == "vBucketServerMap"@);
    assert(rest[16].1->Object_0 =~= server_map_members(map, nodes, local));
}

/// Lists of nodes are told node by node in their order.
pub proof fn law_nodes_are_told_in_order(
    nodes: Seq<NodeView>,
    local: LocalPorts,
    bucket: Seq<char>,
    i: int,
)
    requires
        0 <= i < nodes.len(),
    ensures
        nodes_json(nodes, local).len() == nodes.len(),
        nodes_json(nodes, local)[i] == node_json(nodes[i], local),
        bucket_nodes(nodes, local).len() == nodes.len(),
        bucket_nodes(nodes, local)[i] == bucket_node(nodes[i], local),
        service_nodes(nodes, local).len() == nodes.len(),
        service_nodes(nodes, local)[i] == service_node(nodes[i], local),
        kv_nodes(nodes, local).len() == nodes.len(),
        kv_nodes(nodes, local)[i] == kv_node(nodes[i], local),
        kv_bucket_nodes(nodes, local, bucket).len() == nodes.len(),
        kv_bucket_nodes(nodes, local, bucket)[i] == kv_bucket_node_json(nodes[i], local, bucket),
{
}

/// A query that failed is answered with its code and its message, under the word for a failure.
pub proof fn law_failed_queries_are_told(code: u64, message: Seq<char>)
    ensures
        ({
            let r = failure_json(code, message)->Object_0;
            &&& r.len() == 2
            &&& r[0] == ("status"@, JsonView::Text("fatal"@))
            &&& r[1].0 == "errors"@
            &&& r[1].1->Array_0.len() == 1
            &&& r[1].1->Array_0[0]->Object_0 =~= seq![
                ("code"@, JsonView::Number(dec(code as nat))),
                ("msg"@, JsonView::Text(message)),
            ]
        }),
{
}

/// Clients are told where they are and which cluster answers, the revision of what they are told, and
/// the nodes of the cluster.
pub proof fn law_clients_are_told_where_they_are(
    host: Seq<char>,
    port: u16,
    uuid: Seq<char>,
    revision: u64,
    nodes: Seq<NodeView>,
    local: LocalPorts,
    cluster: Seq<char>,
    buckets: u64,
)
    ensures
        ({
            let place = ("hostname"@, JsonView::Text(reachable_host(host) + ":"@ + dec(port as nat)));
            let pools = pools_json(host, port, uuid)->Object_0;
            let user = whoami_json(host, port, uuid)->Object_0;
            let pool = pool_json(nodes, local, cluster, buckets)->Object_0;
            let services = services_json(revision, nodes, local)->Object_0;
            let kv = kv_global_config(revision, nodes, local)->Object_0;
            &&& pools.contains(("uuid"@, JsonView::Text(uuid)))
            &&& pools.contains(place)
            &&& user.contains(("uuid"@, JsonView::Text(uuid)))
            &&& user.contains(place)
            &&& pool.contains(("nodes"@, JsonView::Array(nodes_json(nodes, local))))
            &&& pool.contains(("clusterName"@, JsonView::Text(cluster)))
            &&& pool.contains(("bucketCount"@, JsonView::Number(dec(buckets as nat))))
            &&& services.contains(("rev"@, JsonView::Number(dec(revision as nat))))
            &&& services.contains(("nodesExt"@, JsonView::Array(service_nodes(nodes, local))))
            &&& kv.contains(("rev"@, JsonView::Number(dec(revision as nat))))
            &&& kv.contains(("nodesExt"@, JsonView::Array(kv_nodes(nodes, local))))
        }),
{
    let pools = pools_json(host, port, uuid)->Object_0;
    let user = whoami_json(host, port, uuid)->Object_0;
    let pool = pool_json(nodes, local, cluster, buckets)->Object_0;
    let services = services_json(revision, nodes, local)->Object_0;
    let kv = kv_global_config(revision, nodes, local)->Object_0;
    assert(pools[6].0 == "uuid"@ && pools[9].0 == "hostname"@);
    assert(user[5].0 == "uuid"@ && user[6].0 == "hostname"@);
    assert(pool[1].0 == "nodes"@ && pool[8].0 == "clusterName"@ && pool[14].0 == "bucketCount"@);
    assert(services[0].0 == "rev"@ && services[1].0 == "nodesExt"@);
    assert(kv[0].0 == "rev"@ && kv[2].0 == "nodesExt"@);
}

/// An escape that is not made of two digits stands for nothing, and what follows is read on behind it;
/// only before a single digit a plus sign may stand.
pub proof fn law_broken_escapes_are_dropped(a: char, b: char, rest: Seq<char>)
    ensures
        ({
            let first = '0' <= a <= '9' || 'a' <= a <= 'f' || 'A' <= a <= 'F';
            let second = '0' <= b <= '9' || 'a' <= b <= 'f' || 'A' <= b <= 'F';
            let read = decoded_from(seq!['%', a, b] + rest, 0);
            &&& !second || (!first && a != '+') ==> read == decoded_from(rest, 0)
            &&& second && (first || a == '+') ==> read.len() == 1 + decoded_from(rest, 0).len()
            &&& a == '+' && '0' <= b <= '9' ==> read[0] as int == b as int - '0' as int
        }),
{
    let s = seq!['%', a, b] + rest;
    lemma_decoded_shift(seq!['%', a, b], rest, 0);
    assert(s[0] == '%' && s[1] == a && s[2] == b);
    assert(escape_end(s.len() as int, 1) == 3);
    let t = s.subrange(1, 3);
    assert(t.len() == 2 && t[0] == a && t[1] == b);
}

/// What clients are told of the cluster and of the user whatever they ask: full rights, the services
/// that there are, and that all is well.
pub proof fn law_clients_have_full_rights(
    host: Seq<char>,
    port: u16,
    uuid: Seq<char>,
    nodes: Seq<NodeView>,
    local: LocalPorts,
    cluster: Seq<char>,
    buckets: u64,
)
    ensures
        ({
            let pools = pools_json(host, port, uuid)->Object_0;
            let user = whoami_json(host, port, uuid)->Object_0;
            let pool = pool_json(nodes, local, cluster, buckets)->Object_0;
            let ping = ping_json()->Object_0;
            &&& pools.contains(("isAdminCreds"@, JsonView::Bool(true)))
            &&& pools.contains(("isROAdminCreds"@, JsonView::Bool(false)))
            &&& pools.contains(("isEnterprise"@, JsonView::Bool(true)))
            &&& pools.contains(("implementationVersion"@, JsonView::Text("0.3.0-oxidedb"@)))
            &&& pools[3].0 == "allowedServices"@ && pools[3].1->Array_0 =~= seq![
                JsonView::Text("kv"@),
                JsonView::Text("n1ql"@),
                JsonView::Text("index"@),
                JsonView::Text("fts"@),
                JsonView::Text("cbas"@),
            ]
            &&& user.contains(("id"@, JsonView::Text("admin"@)))
            &&& user.contains(("domain"@, JsonView::Text("local"@)))
            &&& user.contains(("name"@, JsonView::Text("Administrator"@)))
            &&& pool.contains(("name"@, JsonView::Text("default"@)))
            &&& pool.contains(("rebalanceStatus"@, JsonView::Text("none"@)))
            &&& pool.contains(("balanced"@, JsonView::Bool(true)))
            &&& pool.contains(("maxBucketCount"@, JsonView::Number(dec(30))))
            &&& ping =~= seq![
                ("status"@, JsonView::Text("ok"@)),
                ("revision"@, JsonView::Number(dec(1))),
            ]
        }),
{
    let pools = pools_json(host, port, uuid)->Object_0;
    let user = whoami_json(host, port, uuid)->Object_0;
    let pool = pool_json(nodes, local, cluster, buckets)->Object_0;
    assert(pools[0].0 == "isAdminCreds"@ && pools[1].0 == "isROAdminCreds"@ && pools[2].0
        == "isEnterprise"@ && pools[7].0 == "implementationVersion"@);
    assert(user[0].0 == "id"@ && user[1].0 == "domain"@ && user[3].0 == "name"@);
    assert(pool[0].0 == "name"@ && pool[4].0 == "rebalanceStatus"@ && pool[7].0 == "maxBucketCount"@
        && pool[9].0 == "balanced"@);
}

/// The settings of a bucket that clients are told, and what it holds.
pub proof fn law_bucket_settings_are_told(
    name: Seq<char>,
    map: PartitionMapView,
    nodes: Seq<NodeView>,
    local: LocalPorts,
    uuid: Seq<char>,
    docs: u64,
    bytes: u64,
)
    ensures
        ({
            let r = bucket_config_json(name, map, nodes, local, uuid, docs, bytes)->Object_0;
            let stats = r[27].1->Object_0;
            &&& r.contains(("bucketType"@, JsonView::Text("membase"@)))
            &&& r.contains(("authType"@, JsonView::Text("sasl"@)))
            &&& r.contains(("replicaIndex"@, JsonView::Bool(false)))
            &&& r.contains(("uri"@, JsonView::Text("/pools/default/buckets/"@ + name)))
            &&& r.contains(("nodes"@, JsonView::Array(nodes_json(nodes, local))))
            &&& r.contains(("nodeLocator"@, JsonView::Text("vbucket"@)))
            &&& r.contains(("maxTTL"@, JsonView::Number(dec(0))))
            &&& r.contains(("compressionMode"@, JsonView::Text("passive"@)))
            &&& r.contains(("replicaNumber"@, JsonView::Number(dec(map.num_replicas as nat))))
            &&& r.contains(("evictionPolicy"@, JsonView::Text("valueOnly"@)))
            &&& r.contains(("conflictResolutionType"@, JsonView::Text("seqno"@)))
            &&& r.contains(("durabilityMinLevel"@, JsonView::Text("none"@)))
            &&& r.contains(("pitrEnabled"@, JsonView::Bool(false)))
            &&& r.contains(("autoCompactionSettings"@, JsonView::Bool(false)))
            &&& r.contains(("storageBackend"@, JsonView::Text("couchstore"@)))
            &&& r[27].0 == "basicStats"@
            &&& stats.contains(("itemCount"@, JsonView::Number(dec(docs as nat))))
            &&& stats.contains(("diskUsed"@, JsonView::Number(dec(bytes as nat))))
            &&& stats.contains(("dataUsed"@, JsonView::Number(dec(bytes as nat))))
            &&& stats.contains(("memUsed"@, JsonView::Number(dec(bytes as nat))))
        }),
{
    let r = bucket_config_json(name, map, nodes, local, uuid, docs, bytes)->Object_0;
    let stats = r[27].1->Object_0;
    assert(r[1].0 == "bucketType"@ && r[2].0 == "authType"@ && r[5].0 == "replicaIndex"@ && r[6].0
        == "uri"@ && r[10].0 == "nodes"@ && r[13].0 == "nodeLocator"@);
    assert(r[22].0 == "maxTTL"@ && r[23].0 == "compressionMode"@ && r[24].0 == "replicaNumber"@);
    assert(r[28].0 == "evictionPolicy"@ && r[29].0 == "conflictResolutionType"@ && r[30].0
        == "durabilityMinLevel"@ && r[31].0 == "pitrEnabled"@);
    assert(r[34].0 == "autoCompactionSettings"@ && r[35].0 == "storageBackend"@);
    assert(stats[3].0 == "itemCount"@ && stats[4].0 == "diskUsed"@ && stats[5].0 == "dataUsed"@
        && stats[6].0 == "memUsed"@);
}

/// What clients are told of a node in the list of nodes.
pub proof fn law_nodes_are_told(node: NodeView, local: LocalPorts, bucket: Seq<char>)
    ensures
        ({
            let r = node_json(node, local)->Object_0;
            let kv = kv_bucket_node_json(node, local, bucket)->Object_0;
            let port = ("direct"@, JsonView::Number(dec(local.kv_port_of(node) as nat)));
            &&& r.contains(("hostname"@, JsonView::Text(node_address(node))))
            &&& r.contains(("status"@, JsonView::Text(health_word(node.status))))
            &&& r.contains(("clusterMembership"@, JsonView::Text("active"@)))
            &&& r.contains(("thisNode"@, JsonView::Bool(node.name == local.node_name@)))
            &&& r.contains(("nodeUUID"@, JsonView::Text(node.name)))
            &&& r.contains(("uptime"@, JsonView::Text(dec(node.uptime_seconds as nat))))
            &&& r[5].0 == "ports"@ && r[5].1->Object_0.contains(port)
            &&& kv.contains(("couchApiBase"@, JsonView::Text(node_url(node, bucket))))
            &&& kv.contains(("hostname"@, JsonView::Text(node_address(node))))
            &&& kv.contains(("status"@, JsonView::Text(health_word(node.status))))
            &&& kv[3].0 == "ports"@ && kv[3].1->Object_0.contains(port)
        }),
{
    let r = node_json(node, local)->Object_0;
    let kv = kv_bucket_node_json(node, local, bucket)->Object_0;
    assert(r[1].0 == "hostname"@ && r[2].0 == "status"@ && r[3].0 == "clusterMembership"@ && r[4].0
        == "thisNode"@ && r[7].0 == "nodeUUID"@ && r[16].0 == "uptime"@);
    assert(r[5].1->Object_0[2].0 == "direct"@);
    assert(kv[0].0 == "couchApiBase"@ && kv[1].0 == "hostname"@ && kv[2].0 == "status"@);
    assert(kv[3].1->Object_0[0].0 == "direct"@);
}

} // verus!
