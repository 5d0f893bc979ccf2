use oxidedb::cluster::orchestrator::elect_orchestrator;

#[test]
fn test_elect_single_node() {
    let nodes = vec![("node-1".to_string(), "http://host1:8091".to_string())];
    let (name, url) = elect_orchestrator(&nodes).unwrap();
    assert_eq!(name, "node-1");
    assert_eq!(url, "http://host1:8091");
}

#[test]
fn test_elect_multiple_nodes() {
    let nodes = vec![
        ("node-3".to_string(), "http://host3:8091".to_string()),
        ("node-1".to_string(), "http://host1:8091".to_string()),
        ("node-2".to_string(), "http://host2:8091".to_string()),
    ];
    let (name, _) = elect_orchestrator(&nodes).unwrap();
    assert_eq!(name, "node-1");
}

#[test]
fn test_elect_empty() {
    let nodes: Vec<(String, String)> = vec![];
    assert!(elect_orchestrator(&nodes).is_none());
}

#[test]
fn names_are_ordered_as_texts() {
    let nodes = vec![
        ("node-2".to_string(), "b".to_string()),
        ("node-10".to_string(), "a".to_string()),
    ];
    assert_eq!(elect_orchestrator(&nodes).unwrap().0, "node-10");
}
