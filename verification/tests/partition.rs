use oxidedb::cluster::partition::PartitionMap;
use oxidedb::strmap::StrMap;

fn names(list: &[&str]) -> Vec<String> {
    list.iter().map(|s| s.to_string()).collect()
}

#[test]
fn test_partition_map_single_node() {
    let nodes = vec!["node-1".to_string()];
    let pmap = PartitionMap::new(8, 1, &nodes);
    assert_eq!(pmap.map.len(), 8);
    for entry in &pmap.map {
        assert_eq!(entry.active_node, "node-1");
        assert!(entry.replica_nodes.is_empty());
    }
}

#[test]
fn test_partition_map_two_nodes() {
    let nodes = vec!["node-1".to_string(), "node-2".to_string()];
    let pmap = PartitionMap::new(8, 1, &nodes);
    let n1_count = pmap.map.iter().filter(|e| e.active_node == "node-1").count();
    let n2_count = pmap.map.iter().filter(|e| e.active_node == "node-2").count();
    assert_eq!(n1_count, 4);
    assert_eq!(n2_count, 4);
}

#[test]
fn test_rebalance_add_node() {
    let nodes = vec!["node-1".to_string()];
    let mut pmap = PartitionMap::new(12, 1, &nodes);
    assert_eq!(pmap.active_vbuckets_for("node-1").len(), 12);

    let new_nodes = vec!["node-1".to_string(), "node-2".to_string()];
    let transfers = pmap.rebalance(&new_nodes);

    assert!(!transfers.is_empty());
    let n1 = pmap.active_vbuckets_for("node-1").len();
    let n2 = pmap.active_vbuckets_for("node-2").len();
    assert_eq!(n1 + n2, 12);
    assert_eq!(n1, 6);
    assert_eq!(n2, 6);
}

#[test]
fn test_rebalance_remove_node() {
    let nodes = vec!["node-1".to_string(), "node-2".to_string(), "node-3".to_string()];
    let mut pmap = PartitionMap::new(12, 1, &nodes);

    let new_nodes = vec!["node-1".to_string(), "node-2".to_string()];
    let _transfers = pmap.rebalance(&new_nodes);

    let n1 = pmap.active_vbuckets_for("node-1").len();
    let n2 = pmap.active_vbuckets_for("node-2").len();
    assert_eq!(n1 + n2, 12);
    assert_eq!(n1, 6);
    assert_eq!(n2, 6);
    assert!(pmap.active_vbuckets_for("node-3").is_empty());
}

#[test]
fn rebalance_settles_and_moves_no_more_than_needed() {
    let mut pmap = PartitionMap::new(10, 1, &names(&["a"]));
    let first = pmap.rebalance(&names(&["a", "b", "c"]));
    assert_eq!(first.len(), 6);
    let again = pmap.rebalance(&names(&["a", "b", "c"]));
    assert!(again.is_empty());
    let shares: Vec<usize> =
        ["a", "b", "c"].iter().map(|n| pmap.active_vbuckets_for(n).len()).collect();
    assert_eq!(shares, vec![4, 3, 3]);
}

#[test]
fn replicas_stand_on_other_nodes() {
    let pmap = PartitionMap::new(9, 2, &names(&["a", "b", "c"]));
    for entry in &pmap.map {
        assert_eq!(entry.replica_nodes.len(), 2);
        assert!(!entry.replica_nodes.contains(&entry.active_node));
        assert_ne!(entry.replica_nodes[0], entry.replica_nodes[1]);
    }
}

#[test]
fn replicas_spread_over_server_groups() {
    let mut groups: StrMap<String> = StrMap::new();
    for (node, group) in [("a", "g1"), ("b", "g1"), ("c", "g2"), ("d", "g2")] {
        groups.insert(node.to_string(), group.to_string());
    }
    let mut pmap = PartitionMap::new(16, 1, &names(&["a"]));
    pmap.rebalance_with_groups(&names(&["a", "b", "c", "d"]), &groups);
    for entry in &pmap.map {
        let own = groups.get(&entry.active_node).unwrap().clone();
        let other = groups.get(&entry.replica_nodes[0]).unwrap().clone();
        assert_ne!(own, other);
    }
}

#[test]
fn groups_influence_replicas_only() {
    let mut plain = PartitionMap::new(13, 2, &names(&["a", "b"]));
    let mut grouped = PartitionMap::new(13, 2, &names(&["a", "b"]));
    let nodes = names(&["a", "b", "c", "d"]);
    let mut groups: StrMap<String> = StrMap::new();
    for (node, group) in [("a", "g1"), ("b", "g1"), ("c", "g2"), ("d", "g3")] {
        groups.insert(node.to_string(), group.to_string());
    }
    let moves = plain.rebalance(&nodes);
    let same = grouped.rebalance_with_groups(&nodes, &groups);
    assert_eq!(moves.len(), same.len());
    for (x, y) in moves.iter().zip(same.iter()) {
        assert_eq!((x.vbucket_id, &x.from_node, &x.to_node), (y.vbucket_id, &y.from_node, &y.to_node));
    }
    assert_eq!(plain.revision, grouped.revision);
    for (x, y) in plain.map.iter().zip(grouped.map.iter()) {
        assert_eq!(x.active_node, y.active_node);
    }
    // Both nodes keep their new share; the rest moves, and no more.
    assert_eq!(moves.len(), 6);
    // An owner in the first group has its replicas in the two others.
    let of_a = grouped.map.iter().find(|e| e.active_node == "a").unwrap();
    assert_eq!(of_a.replica_nodes, names(&["c", "d"]));
    grouped.revision = u64::MAX;
    assert!(grouped.rebalance_with_groups(&[], &groups).is_empty());
    assert_eq!(grouped.revision, u64::MAX);
}
