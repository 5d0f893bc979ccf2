use oxidedb::cluster::durability::{
    DurabilityLevel, DurabilityManager, DurabilityRequirement, DurabilityToken,
};

#[test]
fn test_required_acks_none() {
    let req = DurabilityRequirement { level: DurabilityLevel::NoDurability, timeout_ms: 2500 };
    assert_eq!(req.required_acks(0), 0);
    assert_eq!(req.required_acks(1), 0);
    assert_eq!(req.required_acks(2), 0);
}

#[test]
fn test_required_acks_majority() {
    let req = DurabilityRequirement { level: DurabilityLevel::Majority, timeout_ms: 2500 };
    assert_eq!(req.required_acks(1), 1);
    assert_eq!(req.required_acks(2), 1);
    assert_eq!(req.required_acks(3), 2);
}

#[test]
fn test_durability_token_satisfaction() {
    let req = DurabilityRequirement { level: DurabilityLevel::Majority, timeout_ms: 2500 };
    let mut token =
        DurabilityToken::new("key1".to_string(), 0, 100, 1, req, vec!["node-2".to_string()]);
    assert!(!token.is_satisfied());
    token.ack_replica("node-2");
    assert!(token.is_satisfied());
}

#[test]
fn test_persist_to_active() {
    let req = DurabilityRequirement {
        level: DurabilityLevel::MajorityAndPersistToActive,
        timeout_ms: 2500,
    };
    let mut token =
        DurabilityToken::new("key1".to_string(), 0, 100, 1, req, vec!["node-2".to_string()]);
    token.ack_replica("node-2");
    assert!(!token.is_satisfied());
    token.ack_active_persist();
    assert!(token.is_satisfied());
}

#[test]
fn acknowledged_writes_leave_the_manager() {
    let req = DurabilityRequirement { level: DurabilityLevel::Majority, timeout_ms: 2500 };
    let mut manager = DurabilityManager::new();
    manager.register(DurabilityToken::new(
        "k".to_string(),
        7,
        100,
        1,
        req,
        vec!["node-2".to_string(), "node-3".to_string(), "node-4".to_string()],
    ));
    assert_eq!(manager.pending_count(), 1);
    assert_eq!(manager.ack_replica(7, 99, "node-2"), None);
    assert_eq!(manager.ack_replica(7, 100, "node-2"), Some(false));
    assert_eq!(manager.ack_replica(7, 100, "node-3"), Some(true));
    assert_eq!(manager.pending_count(), 0);
}

#[test]
fn timed_out_writes_are_forgotten() {
    let req = DurabilityRequirement { level: DurabilityLevel::Majority, timeout_ms: 10 };
    let mut manager = DurabilityManager::new();
    manager.register(DurabilityToken::new("k".to_string(), 7, 100, 1, req, vec!["n".to_string()]));
    assert_eq!(manager.cleanup_elapsed(&vec![10_000_000]), 0);
    assert_eq!(manager.cleanup_elapsed(&vec![10_000_001]), 1);
    assert_eq!(manager.pending_count(), 0);
}
