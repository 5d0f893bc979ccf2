//! Requests about the audit log.

use crate::api::bucket_routes::{ok_answer, ok_json};
use crate::audit::logger::{
    law_latest_come_first, AuditEvent, AuditLogger, AuditView, MAX_AUDIT_EVENTS,
};
use crate::json::{json_number, json_text, number, Json, JsonView};
use crate::text::opt_text;
use vstd::prelude::*;

verus! {

/// Which events are asked for.
#[derive(Debug)]
pub struct EventQuery {
    pub limit: Option<usize>,
    pub offset: Option<usize>,
    pub bucket: Option<String>,
}

/// A request to switch the log on or off.
#[derive(Debug)]
pub struct AuditConfigUpdate {
    pub enabled: Option<bool>,
}

/// How many events are returned at most.
pub open spec fn event_limit(query: EventQuery) -> usize {
    match query.limit {
        Some(n) => n,
        None => 100,
    }
}

/// How many events are skipped.
pub open spec fn event_offset(query: EventQuery) -> usize {
    match query.offset {
        Some(n) => n,
        None => 0,
    }
}

/// The latest events, the last one first: those of a bucket, where one is named, else all but those
/// that are skipped.
pub open spec fn events_asked_for(log: AuditView, query: EventQuery) -> Seq<AuditEvent> {
    let n = log.events.len();
    match query.bucket {
        Some(bucket) => log.latest(
            |e: AuditEvent| opt_text(e.bucket) == Some(bucket@),
            event_limit(query) as int,
            n as int,
        ),
        None => {
            let offset = event_offset(query);
            let left = if offset < n {
                (n - offset) as nat
            } else {
                0
            };
            Seq::new(
                if event_limit(query) < left {
                    event_limit(query) as nat
                } else {
                    left
                },
                |i: int| log.events[n - 1 - offset - i],
            )
        },
    }
}

/// The events that are asked for.
pub fn list_events(logger: &AuditLogger, query: &EventQuery) -> (r: Vec<AuditEvent>)
    ensures
        r@ == events_asked_for(logger@, *query),
{
    let limit: usize = match query.limit {
        Some(n) => n,
        None => 100,
    };
    let offset: usize = match query.offset {
        Some(n) => n,
        None => 0,
    };
    match &query.bucket {
        Some(bucket) => {
            let r = logger.get_events_for_bucket(bucket.as_str(), limit);
            assert((|e: AuditEvent| opt_text(e.bucket) == Some(bucket@)) =~= (|e: AuditEvent|
                opt_text(e.bucket) == Some(query.bucket->0@)));
            r
        },
        None => logger.get_events(limit, offset),
    }
}

/// Forgets all events.
pub fn clear_events(logger: &mut AuditLogger) -> (r: Json)
    requires
        old(logger).wf(),
    ensures
        final(logger).wf(),
        final(logger)@ == (AuditView { events: Seq::empty(), ..old(logger)@ }),
        r@ == ok_json("All audit events cleared"@),
{
    logger.clear();
    ok_answer("All audit events cleared")
}

/// How the log is set up.
pub fn get_config(logger: &AuditLogger) -> (r: Json)
    ensures
        r@ == JsonView::object()
            .with("enabled"@, JsonView::Bool(logger@.enabled))
            .with("max_events"@, number(MAX_AUDIT_EVENTS as nat)),
{
    Json::object()
        .with("enabled", Json::Bool(logger.is_enabled()))
        .with("max_events", json_number(MAX_AUDIT_EVENTS as u64))
}

/// Switches the log on or off, if the request says so.
pub fn update_config(logger: &mut AuditLogger, req: &AuditConfigUpdate) -> (r: Json)
    requires
        old(logger).wf(),
    ensures
        final(logger).wf(),
        final(logger)@ == (AuditView {
            enabled: match req.enabled {
                Some(b) => b,
                None => old(logger)@.enabled,
            },
            ..old(logger)@
        }),
        r@ == JsonView::object()
            .with("status"@, JsonView::Text("ok"@))
            .with("enabled"@, JsonView::Bool(final(logger)@.enabled)),
{
    match req.enabled {
        Some(b) => {
            logger.set_enabled(b);
        },
        None => {},
    }
    Json::object()
        .with("status", json_text("ok"))
        .with("enabled", Json::Bool(logger.is_enabled()))
}

/// The number of events, and whether the log is on.
pub fn get_stats(logger: &AuditLogger) -> (r: Json)
    ensures
        r@ == JsonView::object()
            .with("total_events"@, number(logger@.events.len()))
            .with("enabled"@, JsonView::Bool(logger@.enabled)),
{
    Json::object()
        .with("total_events", json_number(logger.event_count() as u64))
        .with("enabled", Json::Bool(logger.is_enabled()))
}

// ---- Laws ----

/// Without a bucket, the latest events are listed from the end of the log backwards, a hundred where
/// nothing was said, after those that are skipped.
pub proof fn law_events_are_listed_backwards(log: AuditView, query: EventQuery, i: int)
    requires
        query.bucket is None,
    ensures
        ({
            let skipped: int = if query.offset is Some {
                query.offset->0 as int
            } else {
                0
            };
            let most: int = if query.limit is Some {
                query.limit->0 as int
            } else {
                100
            };
            let n = log.events.len();
            let listed = events_asked_for(log, query);
            &&& skipped + most <= n ==> listed.len() == most
            &&& skipped <= n < skipped + most ==> listed.len() == n - skipped
            &&& n < skipped ==> listed.len() == 0
            &&& 0 <= i < listed.len() ==> listed[i] == log.events[n - 1 - (skipped + i)]
        }),
{
}

/// With a bucket, the latest events about it are listed from the end of the log backwards, as many as
/// were asked for; none is skipped.
pub proof fn law_events_of_a_bucket_are_listed(log: AuditView, query: EventQuery, i: int)
    requires
        query.bucket is Some,
    ensures
        ({
            let bucket = query.bucket->0@;
            let about = log.events.filter(|e: AuditEvent| opt_text(e.bucket) == Some(bucket));
            let most: int = if query.limit is Some {
                query.limit->0 as int
            } else {
                100
            };
            let listed = events_asked_for(log, query);
            &&& listed.len() == if most < about.len() {
                most
            } else {
                about.len() as int
            }
            &&& 0 <= i < listed.len() ==> listed[i] == about[about.len() - 1 - i]
        }),
{
    let bucket = query.bucket->0@;
    let keep = |e: AuditEvent| opt_text(e.bucket) == Some(bucket);
    law_latest_come_first(log, keep, event_limit(query) as int);
}

} // verus!
