//! The audit log: the latest events, each with an id.

use crate::clock::utc_now;
use crate::text::{copy_opt, opt_is, opt_text};
use std::collections::VecDeque;
use vstd::prelude::*;

verus! {

/// How many events the log keeps.
pub const MAX_AUDIT_EVENTS: usize = 10000;

/// What an event is about.
#[derive(Debug, Clone, Copy, PartialEq, Eq, Structural)]
pub enum AuditEventType {
    AuthSuccess,
    AuthFailure,
    BucketCreated,
    BucketDeleted,
    BucketFlushed,
    ScopeCreated,
    ScopeDeleted,
    CollectionCreated,
    CollectionDeleted,
    DocumentRead,
    DocumentWrite,
    DocumentDelete,
    IndexCreated,
    IndexDropped,
    FtsIndexCreated,
    FtsIndexDropped,
    FtsSearch,
    XdcrReplicationCreated,
    XdcrReplicationDeleted,
    NodeAdded,
    NodeRemoved,
    NodeFailover,
    ConfigChanged,
    ServerStarted,
    ServerStopped,
}

/// An event. The time is in nanoseconds since the Unix epoch; details are a JSON text.
#[derive(Debug, Clone)]
pub struct AuditEvent {
    pub id: u64,
    pub timestamp: i128,
    pub event_type: AuditEventType,
    pub description: String,
    pub user: Option<String>,
    pub remote_addr: Option<String>,
    pub bucket: Option<String>,
    pub details: Option<String>,
}

impl AuditEvent {
    /// A copy.
    pub fn copy(&self) -> (r: AuditEvent)
        ensures
            r == *self,
    {
        AuditEvent {
            id: self.id,
            timestamp: self.timestamp,
            event_type: self.event_type,
            description: self.description.clone(),
            user: copy_opt(&self.user),
            remote_addr: copy_opt(&self.remote_addr),
            bucket: copy_opt(&self.bucket),
            details: copy_opt(&self.details),
        }
    }
}

/// The audit log.
pub struct AuditLogger {
    pub events: VecDeque<AuditEvent>,
    /// The id of the next event.
    pub counter: u64,
    pub enabled: bool,
}

/// What an [`AuditLogger`] stands for.
#[verifier::ext_equal]
pub struct AuditView {
    pub events: Seq<AuditEvent>,
    pub counter: u64,
    pub enabled: bool,
}

impl AuditView {
    /// After an event was logged, which drops the oldest one where the log is full; nothing
    /// changes while the log is switched off.
    pub open spec fn logged(self, event: AuditEvent) -> Self {
        if !self.enabled {
            self
        } else {
            AuditView {
                events: (if self.events.len() >= MAX_AUDIT_EVENTS {
                    self.events.drop_first()
                } else {
                    self.events
                }).push(event),
                counter: if self.counter == u64::MAX {
                    0
                } else {
                    (self.counter + 1) as u64
                },
                ..self
            }
        }
    }

    /// At most `limit` of the first `k` events that `keep` picks, the latest first.
    pub open spec fn latest(self, keep: spec_fn(AuditEvent) -> bool, limit: int, k: int) -> Seq<
        AuditEvent,
    >
        decreases k,
    {
        if k <= 0 || limit <= 0 {
            Seq::empty()
        } else if keep(self.events[k - 1]) {
            seq![self.events[k - 1]] + self.latest(keep, limit - 1, k - 1)
        } else {
            self.latest(keep, limit, k - 1)
        }
    }
}

impl View for AuditLogger {
    type V = AuditView;

    open spec fn view(&self) -> AuditView {
        AuditView { events: self.events@, counter: self.counter, enabled: self.enabled }
    }
}

impl AuditLogger {
    /// The log holds no more events than it may.
    pub open spec fn wf(self) -> bool {
        self.events@.len() <= MAX_AUDIT_EVENTS
    }

    pub fn new() -> (r: Self)
        ensures
            r.wf(),
            r@ == (AuditView { events: Seq::empty(), counter: 1, enabled: true }),
    {
        let r = AuditLogger { events: VecDeque::new(), counter: 1, enabled: true };
        assert(r@.events =~= Seq::empty());
        r
    }

    pub fn is_enabled(&self) -> (r: bool)
        ensures
            r == self@.enabled,
    {
        self.enabled
    }

    /// Switches the log on or off.
    pub fn set_enabled(&mut self, enabled: bool)
        requires
            old(self).wf(),
        ensures
            final(self).wf(),
            final(self)@ == (AuditView { enabled, ..old(self)@ }),
    {
        self.enabled = enabled;
    }

    /// Logs an event with all details at a given time.
    pub fn log_full_at(
        &mut self,
        event_type: AuditEventType,
        description: String,
        user: Option<String>,
        remote_addr: Option<String>,
        bucket: Option<String>,
        details: Option<String>,
        now: i128,
    )
        requires
            old(self).wf(),
        ensures
            final(self).wf(),
            final(self)@ == old(self)@.logged(
                (AuditEvent {
                    id: old(self)@.counter,
                    timestamp: now,
                    event_type,
                    description,
                    user,
                    remote_addr,
                    bucket,
                    details,
                }),
            ),
    {
        let ghost before = self@;
        if !self.enabled {
            return;
        }
        let event = AuditEvent {
            id: self.counter,
            timestamp: now,
            event_type,
            description,
            user,
            remote_addr,
            bucket,
            details,
        };
        self.counter = if self.counter == u64::MAX {
            0
        } else {
            self.counter + 1
        };
        if self.events.len() >= MAX_AUDIT_EVENTS {
            let oldest = self.events.pop_front();
            assert(self.events@ =~= before.events.drop_first());
        }
        self.events.push_back(event);
        assert(self@ =~= before.logged(event));
    }

    /// Logs an event with all details.
    pub fn log_full(
        &mut self,
        event_type: AuditEventType,
        description: String,
        user: Option<String>,
        remote_addr: Option<String>,
        bucket: Option<String>,
        details: Option<String>,
    )
        requires
            old(self).wf(),
        ensures
            final(self).wf(),
            exists|now: i128|
                final(self)@ == old(self)@.logged(
                    #[trigger] event_at(
                        old(self)@.counter,
                        now,
                        event_type,
                        description,
                        user,
                        remote_addr,
                        bucket,
                        details,
                    ),
                ),
    {
        let now: i128 = utc_now();
        let ghost event = event_at(
            self@.counter,
            now,
            event_type,
            description,
            user,
            remote_addr,
            bucket,
            details,
        );
        self.log_full_at(event_type, description, user, remote_addr, bucket, details, now);
    }

    /// Logs an event.
    pub fn log(&mut self, event_type: AuditEventType, description: String)
        requires
            old(self).wf(),
        ensures
            final(self).wf(),
            exists|now: i128|
                final(self)@ == old(self)@.logged(
                    #[trigger] event_at(
                        old(self)@.counter,
                        now,
                        event_type,
                        description,
                        None,
                        None,
                        None,
                        None,
                    ),
                ),
    {
        self.log_full(event_type, description, None, None, None, None);
    }

    /// The latest events, the latest first, after leaving out the first `offset`.
    pub fn get_events(&self, limit: usize, offset: usize) -> (r: Vec<AuditEvent>)
        ensures
            ({
                let n = self@.events.len();
                let left = if offset < n {
                    (n - offset) as nat
                } else {
                    0
                };
                r@ == Seq::new(
                    if limit < left {
                        limit as nat
                    } else {
                        left
                    },
                    |i: int| self@.events[n - 1 - offset - i],
                )
            }),
    {
        let n: usize = self.events.len();
        let left: usize = if offset < n {
            n - offset
        } else {
            0
        };
        let count: usize = if limit < left {
            limit
        } else {
            left
        };
        let mut out: Vec<AuditEvent> = Vec::new();
        let mut i: usize = 0;
        while i < count
            invariant
                i <= count <= left,
                n == self.events@.len(),
                left == if offset < n {
                    n - offset
                } else {
                    0
                },
                out@.len() == i,
                forall|k: int| 0 <= k < i ==> #[trigger] out@[k] == self@.events[n - 1 - offset - k],
            decreases count - i,
        {
            out.push(self.events[n - 1 - offset - i].copy());
            i = i + 1;
        }
        assert(out@ =~= Seq::new(count as nat, |i: int| self@.events[n - 1 - offset - i]));
        out
    }

    /// The latest events of a type, the latest first.
    pub fn get_events_by_type(&self, event_type: &AuditEventType, limit: usize) -> (r: Vec<
        AuditEvent,
    >)
        ensures
            r@ == self@.latest(
                |e: AuditEvent| e.event_type == *event_type,
                limit as int,
                self@.events.len() as int,
            ),
    {
        let ghost keep = |e: AuditEvent| e.event_type == *event_type;
        let mut out: Vec<AuditEvent> = Vec::new();
        let mut k: usize = self.events.len();
        assert(out@ + self@.latest(keep, limit as int, k as int) =~= self@.latest(
            keep,
            limit as int,
            k as int,
        ));
        while k > 0 && out.len() < limit
            invariant
                k <= self.events@.len(),
                out@.len() <= limit,
                keep == (|e: AuditEvent| e.event_type == *event_type),
                out@ + self@.latest(keep, limit - out@.len(), k as int) == self@.latest(
                    keep,
                    limit as int,
                    self@.events.len() as int,
                ),
            decreases k,
        {
            let ghost prior = out@;
            if self.events[k - 1].event_type == *event_type {
                out.push(self.events[k - 1].copy());
                assert(out@ + self@.latest(keep, limit - out@.len(), k - 1) =~= prior
                    + self@.latest(keep, limit - prior.len(), k as int));
            }
            k = k - 1;
        }
        assert(out@ =~= out@ + self@.latest(keep, limit - out@.len(), k as int));
        out
    }

    pub fn event_count(&self) -> (r: usize)
        ensures
            r == self@.events.len(),
    {
        self.events.len()
    }

    /// Forgets all events; ids go on.
    pub fn clear(&mut self)
        requires
            old(self).wf(),
        ensures
            final(self).wf(),
            final(self)@ == (AuditView { events: Seq::empty(), ..old(self)@ }),
    {
        self.events.clear();
        assert(self@.events =~= Seq::empty());
    }

    /// The latest events about a bucket, the latest first.
    pub fn get_events_for_bucket(&self, bucket_name: &str, limit: usize) -> (r: Vec<AuditEvent>)
        ensures
            r@ == self@.latest(
                |e: AuditEvent| opt_text(e.bucket) == Some(bucket_name@),
                limit as int,
                self@.events.len() as int,
            ),
    {
        let ghost keep = |e: AuditEvent| opt_text(e.bucket) == Some(bucket_name@);
        let mut out: Vec<AuditEvent> = Vec::new();
        let mut k: usize = self.events.len();
        assert(out@ + self@.latest(keep, limit as int, k as int) =~= self@.latest(
            keep,
            limit as int,
            k as int,
        ));
        while k > 0 && out.len() < limit
            invariant
                k <= self.events@.len(),
                out@.len() <= limit,
                keep == (|e: AuditEvent| opt_text(e.bucket) == Some(bucket_name@)),
                out@ + self@.latest(keep, limit - out@.len(), k as int) == self@.latest(
                    keep,
                    limit as int,
                    self@.events.len() as int,
                ),
            decreases k,
        {
            let ghost prior = out@;
            if opt_is(&self.events[k - 1].bucket, bucket_name) {
                out.push(self.events[k - 1].copy());
                assert(out@ + self@.latest(keep, limit - out@.len(), k - 1) =~= prior
                    + self@.latest(keep, limit - prior.len(), k as int));
            }
            k = k - 1;
        }
        assert(out@ =~= out@ + self@.latest(keep, limit - out@.len(), k as int));
        out
    }
}

/// The event with these parts.
pub open spec fn event_at(
    id: u64,
    now: i128,
    event_type: AuditEventType,
    description: String,
    user: Option<String>,
    remote_addr: Option<String>,
    bucket: Option<String>,
    details: Option<String>,
) -> AuditEvent {
    AuditEvent {
        id,
        timestamp: now,
        event_type,
        description,
        user,
        remote_addr,
        bucket,
        details,
    }
}

// ---- Laws ----

/// The log never holds more events than it may, and the latest event is the last one logged.
pub proof fn law_log_is_bounded(v: AuditView, event: AuditEvent)
    requires
        v.enabled,
        v.events.len() <= MAX_AUDIT_EVENTS,
    ensures
        v.logged(event).events.len() <= MAX_AUDIT_EVENTS,
        v.logged(event).events.last() == event,
{
}

/// While the log is switched off nothing is logged, and no id is used up.
pub proof fn law_disabled_log_is_silent(v: AuditView, event: AuditEvent)
    requires
        !v.enabled,
    ensures
        v.logged(event) == v,
{
}

/// Ids ascend in the order of the events, as long as the counter has not come round.
pub proof fn law_ids_ascend(v: AuditView, event: AuditEvent)
    requires
        forall|i: int, j: int|
            0 <= i < j < v.events.len() ==> (#[trigger] v.events[i]).id < (#[trigger] v.events[j]).id,
        forall|i: int| 0 <= i < v.events.len() ==> (#[trigger] v.events[i]).id < v.counter,
        v.counter < u64::MAX,
        event.id == v.counter,
    ensures
        forall|i: int, j: int|
            0 <= i < j < v.logged(event).events.len() ==> (#[trigger] v.logged(event).events[i]).id
                < (#[trigger] v.logged(event).events[j]).id,
        v.enabled ==> forall|i: int|
            0 <= i < v.logged(event).events.len() ==> (#[trigger] v.logged(event).events[i]).id
                < v.logged(event).counter,
{
}

/// A new event comes behind all others and takes the next number; only a full log of ten thousand
/// loses its oldest event.
pub proof fn law_full_log_loses_the_oldest(v: AuditView, event: AuditEvent)
    requires
        v.enabled,
    ensures
        v.events.len() < 10_000 ==> v.logged(event).events == v.events + seq![event],
        v.events.len() == 10_000 ==> v.logged(event).events == v.events.skip(1) + seq![event],
        v.counter < u64::MAX ==> v.logged(event).counter == v.counter + 1,
        v.logged(event).enabled,
{
    assert(v.events.push(event) =~= v.events + seq![event]);
    if v.events.len() == 10_000 {
        assert(v.events.drop_first().push(event) =~= v.events.skip(1) + seq![event]);
    }
}

/// The latest events of a kind are the events of that kind from the end of the log, as many as were
/// asked for.
pub proof fn law_latest_come_first(v: AuditView, keep: spec_fn(AuditEvent) -> bool, limit: int)
    requires
        limit >= 0,
    ensures
        ({
            let kept = v.events.filter(keep);
            let shown = v.latest(keep, limit, v.events.len() as int);
            &&& shown.len() == if limit < kept.len() {
                limit
            } else {
                kept.len() as int
            }
            &&& forall|i: int|
                0 <= i < shown.len() ==> #[trigger] shown[i] == kept[kept.len() - 1 - i]
        }),
{
    assert(v.events.take(v.events.len() as int) =~= v.events);
    lemma_latest(v, keep, limit, v.events.len() as int);
}

proof fn lemma_latest(v: AuditView, keep: spec_fn(AuditEvent) -> bool, limit: int, k: int)
    requires
        limit >= 0,
        0 <= k <= v.events.len(),
    ensures
        ({
            let kept = v.events.take(k).filter(keep);
            let shown = v.latest(keep, limit, k);
            &&& shown.len() == if limit < kept.len() {
                limit
            } else {
                kept.len() as int
            }
            &&& forall|i: int|
                0 <= i < shown.len() ==> #[trigger] shown[i] == kept[kept.len() - 1 - i]
        }),
    decreases k,
{
    reveal(Seq::filter);
    let s = v.events.take(k);
    if k > 0 {
        assert(s.drop_last() =~= v.events.take(k - 1));
        assert(s.last() == v.events[k - 1]);
        if limit > 0 {
            let less = if keep(v.events[k - 1]) {
                limit - 1
            } else {
                limit
            };
            lemma_latest(v, keep, less, k - 1);
            let kept = s.filter(keep);
            let before = v.events.take(k - 1).filter(keep);
            let shown = v.latest(keep, limit, k);
            if keep(v.events[k - 1]) {
                assert(kept == before.push(v.events[k - 1]));
                assert forall|i: int| 0 <= i < shown.len() implies #[trigger] shown[i]
                    == kept[kept.len() - 1 - i] by {
                    if i > 0 {
                        assert(shown[i] == v.latest(keep, less, k - 1)[i - 1]);
                    }
                }
            }
        }
    }
}

} // verus!
