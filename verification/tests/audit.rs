use oxidedb::api::audit_routes::{
    clear_events, get_config, list_events, update_config, AuditConfigUpdate, EventQuery,
};
use oxidedb::audit::logger::{AuditEventType, AuditLogger};
use oxidedb::json::Json;

fn log(logger: &mut AuditLogger, bucket: Option<&str>) {
    logger.log_full_at(
        AuditEventType::DocumentWrite,
        "written".to_string(),
        None,
        None,
        bucket.map(|b| b.to_string()),
        None,
        5,
    );
}

fn query(limit: Option<usize>, offset: Option<usize>, bucket: Option<&str>) -> EventQuery {
    EventQuery { limit, offset, bucket: bucket.map(|b| b.to_string()) }
}

#[test]
fn events_come_latest_first() {
    let mut logger = AuditLogger::new();
    for i in 0..5 {
        log(&mut logger, if i % 2 == 0 { Some("b") } else { None });
    }
    let ids: Vec<u64> = list_events(&logger, &query(Some(2), Some(1), None))
        .iter()
        .map(|e| e.id)
        .collect();
    assert_eq!(ids, vec![4, 3]);
    let ids: Vec<u64> =
        list_events(&logger, &query(None, None, Some("b"))).iter().map(|e| e.id).collect();
    assert_eq!(ids, vec![5, 3, 1]);
}

#[test]
fn the_log_is_bounded() {
    let mut logger = AuditLogger::new();
    for _ in 0..10_003 {
        log(&mut logger, None);
    }
    assert_eq!(logger.event_count(), 10_000);
    assert_eq!(logger.get_events(1, 0)[0].id, 10_003);
}

#[test]
fn a_log_that_is_off_is_silent() {
    let mut logger = AuditLogger::new();
    update_config(&mut logger, &AuditConfigUpdate { enabled: Some(false) });
    log(&mut logger, None);
    assert_eq!(logger.event_count(), 0);
    update_config(&mut logger, &AuditConfigUpdate { enabled: None });
    assert!(!logger.is_enabled());
    update_config(&mut logger, &AuditConfigUpdate { enabled: Some(true) });
    log(&mut logger, None);
    assert_eq!(logger.event_count(), 1);
    assert_eq!(logger.get_events_by_type(&AuditEventType::DocumentWrite, 9).len(), 1);
    assert_eq!(logger.get_events_by_type(&AuditEventType::NodeAdded, 9).len(), 0);
    clear_events(&mut logger);
    assert_eq!(logger.event_count(), 0);
    match get_config(&logger) {
        Json::Object(members) => assert_eq!(members[1].0, "max_events"),
        other => panic!("{:?}", other),
    }
}
