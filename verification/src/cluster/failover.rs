//! Automatic and manual failover: configuration, failure timers, quota and history.

use crate::clock::{as_unsigned, random_id, seconds_between, unsigned_seconds_since, utc_now};
use crate::strmap::StrMap;
use crate::text::{contains_text, copy_texts, dec, push_dec, same_text, texts};
use vstd::prelude::*;
use vstd::string::*;

verus! {

/// How many failover events the history keeps.
pub const MAX_EVENTS: usize = 50;

/// Configuration for automatic failover.
#[derive(Debug, Clone, Copy, PartialEq, Eq, Structural)]
pub struct FailoverConfig {
    /// Whether auto-failover is enabled.
    pub enabled: bool,
    /// Seconds before a node is considered failed.
    pub timeout_secs: u64,
    /// Auto-failovers in a row before manual intervention is required.
    pub max_count: u32,
    /// Whether to fail over nodes without replicas, at the risk of losing data.
    pub failover_on_data_loss: bool,
    /// Number of nodes that must remain healthy for auto-failover to proceed.
    pub min_cluster_size: usize,
    /// Seconds between auto-failovers.
    pub cooldown_secs: u64,
}

impl FailoverConfig {
    pub open spec fn standard() -> Self {
        FailoverConfig {
            enabled: true,
            timeout_secs: 120,
            max_count: 3,
            failover_on_data_loss: false,
            min_cluster_size: 2,
            cooldown_secs: 30,
        }
    }
}

impl Default for FailoverConfig {
    fn default() -> (r: Self)
        ensures
            r == FailoverConfig::standard(),
    {
        FailoverConfig {
            enabled: true,
            timeout_secs: 120,
            max_count: 3,
            failover_on_data_loss: false,
            min_cluster_size: 2,
            cooldown_secs: 30,
        }
    }
}

/// Type of failover.
#[derive(Debug, Clone, Copy, PartialEq, Eq, Structural)]
pub enum FailoverType {
    /// Triggered by the health monitor.
    Automatic,
    /// Initiated by an operator, waiting for replica promotion.
    Graceful,
    /// Forced by an operator.
    Hard,
}

/// A failover in the history. Times are nanoseconds since the Unix epoch.
#[derive(Debug, Clone)]
pub struct FailoverEvent {
    pub id: String,
    pub node_name: String,
    pub failover_type: FailoverType,
    pub reason: String,
    pub vbuckets_affected: usize,
    pub replicas_promoted: usize,
    pub rebalance_triggered: bool,
    pub timestamp: i128,
    pub completed_at: Option<i128>,
    pub success: bool,
}

/// What a [`FailoverEvent`] stands for.
#[verifier::ext_equal]
pub struct EventView {
    pub id: Seq<char>,
    pub node_name: Seq<char>,
    pub failover_type: FailoverType,
    pub reason: Seq<char>,
    pub vbuckets_affected: usize,
    pub replicas_promoted: usize,
    pub rebalance_triggered: bool,
    pub timestamp: i128,
    pub completed_at: Option<i128>,
    pub success: bool,
}

/// What a list of events stands for.
pub open spec fn event_views(v: Seq<FailoverEvent>) -> Seq<EventView> {
    Seq::new(v.len(), |i: int| v[i]@)
}

impl View for FailoverEvent {
    type V = EventView;

    open spec fn view(&self) -> EventView {
        EventView {
            id: self.id@,
            node_name: self.node_name@,
            failover_type: self.failover_type,
            reason: self.reason@,
            vbuckets_affected: self.vbuckets_affected,
            replicas_promoted: self.replicas_promoted,
            rebalance_triggered: self.rebalance_triggered,
            timestamp: self.timestamp,
            completed_at: self.completed_at,
            success: self.success,
        }
    }
}

impl FailoverEvent {
    /// A copy.
    pub fn copy(&self) -> (r: FailoverEvent)
        ensures
            r == *self,
    {
        FailoverEvent {
            id: self.id.clone(),
            node_name: self.node_name.clone(),
            failover_type: self.failover_type,
            reason: self.reason.clone(),
            vbuckets_affected: self.vbuckets_affected,
            replicas_promoted: self.replicas_promoted,
            rebalance_triggered: self.rebalance_triggered,
            timestamp: self.timestamp,
            completed_at: self.completed_at,
            success: self.success,
        }
    }
}

/// Failover state, for monitoring.
#[derive(Debug, Clone)]
pub struct FailoverState {
    pub config: FailoverConfig,
    /// Auto-failovers since the last reset.
    pub auto_failover_count: u32,
    pub quota_exhausted: bool,
    /// Nodes that are failed over now.
    pub failed_over_nodes: Vec<String>,
    pub events: Vec<FailoverEvent>,
    pub last_auto_failover: Option<i128>,
}

/// Failover of one cluster.
pub struct FailoverManager {
    pub config: FailoverConfig,
    pub auto_failover_count: u32,
    pub failed_over_nodes: Vec<String>,
    pub events: Vec<FailoverEvent>,
    pub last_auto_failover: Option<i128>,
    /// When each node was first seen to be unhealthy.
    pub node_failure_timers: StrMap<i128>,
}

/// What a [`FailoverManager`] stands for.
#[verifier::ext_equal]
pub struct FailoverView {
    pub config: FailoverConfig,
    pub auto_failover_count: u32,
    pub failed_over_nodes: Seq<Seq<char>>,
    pub events: Seq<EventView>,
    pub last_auto_failover: Option<i128>,
    pub timers: Map<Seq<char>, i128>,
}

/// The seconds since `then` as the timers count them.
pub open spec fn elapsed_secs(now: i128, then: i128) -> int {
    as_unsigned(seconds_between(now as int, then as int))
}

/// The place of the first text that equals `name`, at or after place `i`.
pub open spec fn place_of(list: Seq<Seq<char>>, name: Seq<char>, i: int) -> Option<int>
    decreases list.len() - i,
{
    if i < 0 || i >= list.len() {
        None
    } else if list[i] == name {
        Some(i)
    } else {
        place_of(list, name, i + 1)
    }
}

impl FailoverView {
    pub open spec fn fresh(config: FailoverConfig) -> Self {
        FailoverView {
            config,
            auto_failover_count: 0,
            failed_over_nodes: Seq::empty(),
            events: Seq::empty(),
            last_auto_failover: None,
            timers: Map::empty(),
        }
    }

    /// Whether the cooldown after the last auto-failover is still running.
    pub open spec fn cooling_down(self, now: i128) -> bool {
        match self.last_auto_failover {
            Some(last) => elapsed_secs(now, last) < self.config.cooldown_secs,
            None => false,
        }
    }

    /// Whether an automatic failover may proceed.
    pub open spec fn may_fail_over(self, healthy_count: usize, now: i128) -> bool {
        &&& self.config.enabled
        &&& self.auto_failover_count < self.config.max_count
        &&& !self.cooling_down(now)
        &&& healthy_count >= self.config.min_cluster_size
    }

    /// The reason given with the decision.
    pub open spec fn verdict_text(self, healthy_count: usize, now: i128) -> Seq<char> {
        if !self.config.enabled {
            "Auto-failover is disabled"@
        } else if self.auto_failover_count >= self.config.max_count {
            "Auto-failover quota exhausted ("@ + dec(self.auto_failover_count as nat) + "/"@ + dec(
                self.config.max_count as nat,
            ) + "). Reset required."@
        } else if self.cooling_down(now) {
            "Cooldown active: "@ + dec(
                (self.config.cooldown_secs - elapsed_secs(
                    now,
                    self.last_auto_failover->0,
                )) as nat,
            ) + "s remaining"@
        } else if healthy_count < self.config.min_cluster_size {
            "Would leave only "@ + dec(healthy_count as nat) + " healthy nodes (minimum: "@ + dec(
                self.config.min_cluster_size as nat,
            ) + ")"@
        } else {
            "OK"@
        }
    }

    /// Whether the failure timer of a node has run for the configured time.
    pub open spec fn timeout_reached(self, node: Seq<char>, now: i128) -> bool {
        self.timers.contains_key(node) && elapsed_secs(now, self.timers[node])
            >= self.config.timeout_secs
    }

    /// After starting the failure timer of a node, unless it runs already.
    pub open spec fn timer_started(self, node: Seq<char>, now: i128) -> Self {
        if self.timers.contains_key(node) {
            self
        } else {
            FailoverView { timers: self.timers.insert(node, now), ..self }
        }
    }

    pub open spec fn timer_cleared(self, node: Seq<char>) -> Self {
        FailoverView { timers: self.timers.remove(node), ..self }
    }

    pub open spec fn is_failed_over(self, node: Seq<char>) -> bool {
        self.failed_over_nodes.contains(node)
    }

    /// The history with one more event, the oldest dropped where it is full.
    pub open spec fn history_with(self, event: EventView) -> Seq<EventView> {
        if self.events.len() >= MAX_EVENTS {
            self.events.drop_first().push(event)
        } else {
            self.events.push(event)
        }
    }

    /// After a failover of a node.
    pub open spec fn recorded(self, node: Seq<char>, event: EventView) -> Self {
        let automatic = event.failover_type == FailoverType::Automatic;
        FailoverView {
            auto_failover_count: if automatic {
                (self.auto_failover_count + 1) as u32
            } else {
                self.auto_failover_count
            },
            last_auto_failover: if automatic {
                Some(event.timestamp)
            } else {
                self.last_auto_failover
            },
            failed_over_nodes: if self.is_failed_over(node) {
                self.failed_over_nodes
            } else {
                self.failed_over_nodes.push(node)
            },
            timers: self.timers.remove(node),
            events: self.history_with(event),
            ..self
        }
    }

    /// After the recovery of a node; nothing changes where it was not failed over.
    pub open spec fn recovered(self, node: Seq<char>) -> Self {
        match place_of(self.failed_over_nodes, node, 0) {
            Some(i) => FailoverView {
                failed_over_nodes: self.failed_over_nodes.remove(i),
                timers: self.timers.remove(node),
                ..self
            },
            None => self,
        }
    }
}

/// The event of a failover that succeeded.
pub open spec fn event_of(
    id: Seq<char>,
    node_name: Seq<char>,
    failover_type: FailoverType,
    reason: Seq<char>,
    vbuckets_affected: usize,
    replicas_promoted: usize,
    rebalance_triggered: bool,
    now: i128,
) -> EventView {
    EventView {
        id,
        node_name,
        failover_type,
        reason,
        vbuckets_affected,
        replicas_promoted,
        rebalance_triggered,
        timestamp: now,
        completed_at: Some(now),
        success: true,
    }
}

impl View for FailoverManager {
    type V = FailoverView;

    open spec fn view(&self) -> FailoverView {
        FailoverView {
            config: self.config,
            auto_failover_count: self.auto_failover_count,
            failed_over_nodes: texts(self.failed_over_nodes@),
            events: event_views(self.events@),
            last_auto_failover: self.last_auto_failover,
            timers: self.node_failure_timers@,
        }
    }
}

impl FailoverManager {
    /// No node is listed twice, and the history is within its bound.
    pub open spec fn wf(self) -> bool {
        &&& self.node_failure_timers.wf()
        &&& self@.failed_over_nodes.no_duplicates()
        &&& self.events@.len() <= MAX_EVENTS
    }

    pub fn new(config: FailoverConfig) -> (r: Self)
        ensures
            r.wf(),
            r@ == FailoverView::fresh(config),
    {
        let r = FailoverManager {
            config,
            auto_failover_count: 0,
            failed_over_nodes: Vec::new(),
            events: Vec::new(),
            last_auto_failover: None,
            node_failure_timers: StrMap::new(),
        };
        assert(r@ =~= FailoverView::fresh(config));
        r
    }

    /// Whether auto-failover may proceed at `now`, and the reason. `healthy_count` is the
    /// number of healthy nodes that would remain.
    pub fn can_auto_failover_at(&self, healthy_count: usize, now: i128) -> (r: (bool, String))
        ensures
            r.0 == self@.may_fail_over(healthy_count, now),
            r.1@ == self@.verdict_text(healthy_count, now),
    {
        if !self.config.enabled {
            return (false, "Auto-failover is disabled".to_owned());
        }
        if self.auto_failover_count >= self.config.max_count {
            let mut msg = "Auto-failover quota exhausted (".to_owned();
            push_dec(&mut msg, self.auto_failover_count as u64);
            msg.append("/");
            push_dec(&mut msg, self.config.max_count as u64);
            msg.append("). Reset required.");
            return (false, msg);
        }
        match self.last_auto_failover {
            Some(last) => {
                let elapsed: u64 = unsigned_seconds_since(now, last);
                if elapsed < self.config.cooldown_secs {
                    let mut msg = "Cooldown active: ".to_owned();
                    push_dec(&mut msg, self.config.cooldown_secs - elapsed);
                    msg.append("s remaining");
                    return (false, msg);
                }
            },
            None => {},
        }
        if healthy_count < self.config.min_cluster_size {
            let mut msg = "Would leave only ".to_owned();
            push_dec(&mut msg, healthy_count as u64);
            msg.append(" healthy nodes (minimum: ");
            push_dec(&mut msg, self.config.min_cluster_size as u64);
            msg.append(")");
            return (false, msg);
        }
        (true, "OK".to_owned())
    }

    /// Whether auto-failover may proceed now, and the reason.
    pub fn can_auto_failover(&self, _node_name: &str, healthy_count: usize) -> (r: (bool, String))
        ensures
            exists|now: i128|
                r.0 == self@.may_fail_over(healthy_count, now) && r.1@ == #[trigger]
                    self@.verdict_text(healthy_count, now),
    {
        let now: i128 = utc_now();
        self.can_auto_failover_at(healthy_count, now)
    }

    /// Starts the failure timer of a node at `now`, unless it runs already.
    pub fn start_failure_timer_at(&mut self, node_name: &str, now: i128)
        requires
            old(self).wf(),
        ensures
            final(self).wf(),
            final(self)@ == old(self)@.timer_started(node_name@, now),
    {
        if !self.node_failure_timers.contains_key(node_name) {
            self.node_failure_timers.insert(node_name.to_owned(), now);
        }
    }

    /// Starts the failure timer of a node, unless it runs already.
    pub fn start_failure_timer(&mut self, node_name: &str)
        requires
            old(self).wf(),
        ensures
            final(self).wf(),
            exists|now: i128| final(self)@ == old(self)@.timer_started(node_name@, now),
    {
        let now: i128 = utc_now();
        self.start_failure_timer_at(node_name, now);
    }

    /// Clears the failure timer of a node.
    pub fn clear_failure_timer(&mut self, node_name: &str)
        requires
            old(self).wf(),
        ensures
            final(self).wf(),
            final(self)@ == old(self)@.timer_cleared(node_name@),
    {
        let gone = self.node_failure_timers.remove(node_name);
    }

    /// The seconds on the failure timer of a node at `now`, if it runs.
    pub fn failure_timer_elapsed_at(&self, node_name: &str, now: i128) -> (r: Option<u64>)
        requires
            self.wf(),
        ensures
            match r {
                Some(s) => self@.timers.contains_key(node_name@) && s == elapsed_secs(
                    now,
                    self@.timers[node_name@],
                ),
                None => !self@.timers.contains_key(node_name@),
            },
    {
        match self.node_failure_timers.get(node_name) {
            Some(started) => Some(unsigned_seconds_since(now, *started)),
            None => None,
        }
    }

    /// The seconds on the failure timer of a node, if it runs.
    pub fn failure_timer_elapsed(&self, node_name: &str) -> (r: Option<u64>)
        requires
            self.wf(),
        ensures
            r is Some == self@.timers.contains_key(node_name@),
            r is Some ==> exists|now: i128|
                r->0 == #[trigger] elapsed_secs(now, self@.timers[node_name@]),
    {
        let now: i128 = utc_now();
        self.failure_timer_elapsed_at(node_name, now)
    }

    /// Whether the failure timer of a node is up at `now`.
    pub fn is_failure_timeout_reached_at(&self, node_name: &str, now: i128) -> (r: bool)
        requires
            self.wf(),
        ensures
            r == self@.timeout_reached(node_name@, now),
    {
        match self.failure_timer_elapsed_at(node_name, now) {
            Some(elapsed) => elapsed >= self.config.timeout_secs,
            None => false,
        }
    }

    /// Whether the failure timer of a node is up.
    pub fn is_failure_timeout_reached(&self, node_name: &str) -> (r: bool)
        requires
            self.wf(),
        ensures
            exists|now: i128| r == #[trigger] self@.timeout_reached(node_name@, now),
    {
        let now: i128 = utc_now();
        self.is_failure_timeout_reached_at(node_name, now)
    }

    /// Records a failover under an id and a time.
    pub fn record_failover_at(
        &mut self,
        node_name: &str,
        failover_type: FailoverType,
        reason: String,
        vbuckets_affected: usize,
        replicas_promoted: usize,
        rebalance_triggered: bool,
        id: String,
        now: i128,
    ) -> (r: FailoverEvent)
        requires
            old(self).wf(),
            failover_type == FailoverType::Automatic ==> old(self)@.auto_failover_count
                < u32::MAX,
        ensures
            final(self).wf(),
            r@ == event_of(
                id@,
                node_name@,
                failover_type,
                reason@,
                vbuckets_affected,
                replicas_promoted,
                rebalance_triggered,
                now,
            ),
            final(self)@ == old(self)@.recorded(node_name@, r@),
    {
        let ghost before = self@;
        let event = FailoverEvent {
            id,
            node_name: node_name.to_owned(),
            failover_type,
            reason,
            vbuckets_affected,
            replicas_promoted,
            rebalance_triggered,
            timestamp: now,
            completed_at: Some(now),
            success: true,
        };
        if failover_type == FailoverType::Automatic {
            self.auto_failover_count = self.auto_failover_count + 1;
            self.last_auto_failover = Some(now);
        }
        if !contains_text(&self.failed_over_nodes, node_name) {
            let ghost list = self.failed_over_nodes@;
            self.failed_over_nodes.push(node_name.to_owned());
            assert(texts(self.failed_over_nodes@) =~= texts(list).push(node_name@));
        }
        let gone = self.node_failure_timers.remove(node_name);
        if self.events.len() >= MAX_EVENTS {
            let oldest = self.events.remove(0);
            assert(event_views(self.events@) =~= before.events.drop_first());
        }
        let ghost kept = event_views(self.events@);
        self.events.push(event.copy());
        assert(event_views(self.events@) =~= kept.push(event@));
        assert(self@ =~= before.recorded(node_name@, event@));
        event
    }

    /// Records a failover now, under a random id.
    pub fn record_failover(
        &mut self,
        node_name: &str,
        failover_type: FailoverType,
        reason: String,
        vbuckets_affected: usize,
        replicas_promoted: usize,
        rebalance_triggered: bool,
    ) -> (r: FailoverEvent)
        requires
            old(self).wf(),
            failover_type == FailoverType::Automatic ==> old(self)@.auto_failover_count
                < u32::MAX,
        ensures
            final(self).wf(),
            r@ == event_of(
                r.id@,
                node_name@,
                failover_type,
                reason@,
                vbuckets_affected,
                replicas_promoted,
                rebalance_triggered,
                r.timestamp,
            ),
            final(self)@ == old(self)@.recorded(node_name@, r@),
    {
        let id = random_id();
        let now: i128 = utc_now();
        self.record_failover_at(
            node_name,
            failover_type,
            reason,
            vbuckets_affected,
            replicas_promoted,
            rebalance_triggered,
            id,
            now,
        )
    }

    /// Takes a node back; `false` where it was not failed over.
    pub fn recover_node(&mut self, node_name: &str) -> (r: bool)
        requires
            old(self).wf(),
        ensures
            final(self).wf(),
            r == old(self)@.is_failed_over(node_name@),
            final(self)@ == old(self)@.recovered(node_name@),
    {
        let ghost before = self@;
        let mut i: usize = 0;
        while i < self.failed_over_nodes.len()
            invariant
                i <= self.failed_over_nodes@.len(),
                self@ == before,
                before == old(self)@,
                self.wf(),
                place_of(before.failed_over_nodes, node_name@, 0) == place_of(
                    before.failed_over_nodes,
                    node_name@,
                    i as int,
                ),
                forall|k: int|
                    0 <= k < i ==> #[trigger] before.failed_over_nodes[k] != node_name@,
            decreases self.failed_over_nodes@.len() - i,
        {
            assert(before.failed_over_nodes[i as int] == self.failed_over_nodes@[i as int]@);
            if same_text(self.failed_over_nodes[i].as_str(), node_name) {
                let gone = self.failed_over_nodes.remove(i);
                let timer = self.node_failure_timers.remove(node_name);
                assert(texts(self.failed_over_nodes@) =~= before.failed_over_nodes.remove(
                    i as int,
                ));
                return true;
            }
            i = i + 1;
        }
        false
    }

    /// Resets the auto-failover counter.
    pub fn reset_quota(&mut self)
        requires
            old(self).wf(),
        ensures
            final(self).wf(),
            final(self)@ == (FailoverView { auto_failover_count: 0, ..old(self)@ }),
    {
        self.auto_failover_count = 0;
    }

    /// Changes the configuration.
    pub fn update_config(&mut self, config: FailoverConfig)
        requires
            old(self).wf(),
        ensures
            final(self).wf(),
            final(self)@ == (FailoverView { config, ..old(self)@ }),
    {
        self.config = config;
    }

    /// The state for monitoring.
    pub fn get_state(&self) -> (r: FailoverState)
        ensures
            r.config == self@.config,
            r.auto_failover_count == self@.auto_failover_count,
            r.quota_exhausted == (self@.auto_failover_count >= self@.config.max_count),
            texts(r.failed_over_nodes@) == self@.failed_over_nodes,
            event_views(r.events@) == self@.events,
            r.last_auto_failover == self@.last_auto_failover,
    {
        let mut events: Vec<FailoverEvent> = Vec::new();
        let mut i: usize = 0;
        while i < self.events.len()
            invariant
                i <= self.events@.len(),
                events@ == self.events@.take(i as int),
            decreases self.events@.len() - i,
        {
            events.push(self.events[i].copy());
            i = i + 1;
            assert(events@ =~= self.events@.take(i as int));
        }
        assert(events@ =~= self.events@);
        FailoverState {
            config: self.config,
            auto_failover_count: self.auto_failover_count,
            quota_exhausted: self.auto_failover_count >= self.config.max_count,
            failed_over_nodes: copy_texts(&self.failed_over_nodes),
            events,
            last_auto_failover: self.last_auto_failover,
        }
    }

    /// Whether a node is failed over.
    pub fn is_failed_over(&self, node_name: &str) -> (r: bool)
        ensures
            r == self@.is_failed_over(node_name@),
    {
        contains_text(&self.failed_over_nodes, node_name)
    }
}

// ---- Laws ----

proof fn lemma_place_of(list: Seq<Seq<char>>, name: Seq<char>, i: int)
    requires
        0 <= i <= list.len(),
    ensures
        match place_of(list, name, i) {
            Some(p) => i <= p < list.len() && list[p] == name,
            None => forall|k: int| i <= k < list.len() ==> #[trigger] list[k] != name,
        },
    decreases list.len() - i,
{
    if i < list.len() {
        lemma_place_of(list, name, i + 1);
    }
}

/// An automatic failover proceeds only while it is enabled, the quota is not used up, the
/// cooldown is over and enough healthy nodes remain; the reason is then "OK".
pub proof fn law_auto_failover_is_guarded(v: FailoverView, healthy_count: usize, now: i128)
    ensures
        v.may_fail_over(healthy_count, now) == (v.config.enabled && v.auto_failover_count
            < v.config.max_count && !v.cooling_down(now) && healthy_count
            >= v.config.min_cluster_size),
        v.may_fail_over(healthy_count, now) ==> v.verdict_text(healthy_count, now) == "OK"@,
{
}

/// After as many automatic failovers as the configuration allows, no further one proceeds.
pub proof fn law_quota_stops_auto_failover(
    v: FailoverView,
    node: Seq<char>,
    event: EventView,
    healthy_count: usize,
    later: i128,
)
    requires
        event.failover_type == FailoverType::Automatic,
        v.auto_failover_count + 1 == v.config.max_count,
    ensures
        !v.recorded(node, event).may_fail_over(healthy_count, later),
{
}

/// The history never holds more than its bound, and the last event is the one recorded last.
pub proof fn law_history_is_bounded(v: FailoverView, node: Seq<char>, event: EventView)
    requires
        v.events.len() <= MAX_EVENTS,
    ensures
        v.recorded(node, event).events.len() <= MAX_EVENTS,
        v.recorded(node, event).events.last() == event,
{
}

/// Recovering a node undoes its failover: the nodes that are failed over are those from
/// before, and the failure timer of the node does not run.
pub proof fn law_recovery_undoes_failover(
    v: FailoverView,
    node: Seq<char>,
    event: EventView,
)
    requires
        v.failed_over_nodes.no_duplicates(),
        !v.is_failed_over(node),
    ensures
        v.recorded(node, event).is_failed_over(node),
        v.recorded(node, event).recovered(node).failed_over_nodes == v.failed_over_nodes,
        !v.recorded(node, event).recovered(node).timers.contains_key(node),
{
    let after = v.recorded(node, event);
    let n = v.failed_over_nodes.len() as int;
    assert(after.failed_over_nodes[n] == node);
    lemma_place_of(after.failed_over_nodes, node, 0);
    let p = place_of(after.failed_over_nodes, node, 0)->0;
    assert(p == n) by {
        if p < n {
            assert(v.failed_over_nodes[p] == node);
        }
    }
    assert(after.failed_over_nodes.remove(n) =~= v.failed_over_nodes);
}

/// An automatic failover may proceed exactly where it is enabled, fewer have happened than are
/// allowed, the cooldown after the last one is over, and enough healthy nodes remain. The cooldown is
/// counted in whole seconds since the last one.
pub proof fn law_cooldown_is_kept(v: FailoverView, healthy_count: usize, now: i128)
    ensures
        ({
            let last = v.last_auto_failover->0;
            let waited = (now - last) / 1_000_000_000;
            let ready = v.config.enabled && v.auto_failover_count < v.config.max_count
                && healthy_count >= v.config.min_cluster_size;
            &&& v.last_auto_failover is None ==> (v.may_fail_over(healthy_count, now) <==> ready)
            &&& v.last_auto_failover is Some && now >= last && waited < 0x1_0000_0000_0000_0000 ==> (
            v.may_fail_over(healthy_count, now) <==> ready && waited >= v.config.cooldown_secs)
        }),
{
}

/// The failure timer of a node runs out once as many whole seconds have passed since it was started
/// as the timeout says; a node without a timer has not timed out.
pub proof fn law_failure_timers_run_out(v: FailoverView, node: Seq<char>, now: i128)
    ensures
        !v.timers.contains_key(node) ==> !v.timeout_reached(node, now),
        v.timers.contains_key(node) && now >= v.timers[node] && (now - v.timers[node])
            / 1_000_000_000 < 0x1_0000_0000_0000_0000 ==> (v.timeout_reached(node, now) <==> (now
            - v.timers[node]) / 1_000_000_000 >= v.config.timeout_secs),
{
}

/// A timer is started once and keeps its start until it is cleared; other timers and everything else
/// stay as they are.
pub proof fn law_timers_keep_their_start(v: FailoverView, node: Seq<char>, other: Seq<char>, now: i128)
    ensures
        v.timer_started(node, now).timers.contains_key(node),
        v.timers.contains_key(node) ==> v.timer_started(node, now) == v,
        !v.timers.contains_key(node) ==> v.timer_started(node, now).timers[node] == now,
        other != node ==> v.timer_started(node, now).timers.contains_key(other)
            == v.timers.contains_key(other),
        other != node && v.timers.contains_key(other) ==> v.timer_started(node, now).timers[other]
            == v.timers[other] && v.timer_cleared(node).timers[other] == v.timers[other],
        !v.timer_cleared(node).timers.contains_key(node),
        other != node ==> v.timer_cleared(node).timers.contains_key(other)
            == v.timers.contains_key(other),
        v.timer_started(node, now) == (FailoverView {
            timers: v.timer_started(node, now).timers,
            ..v
        }),
        v.timer_cleared(node) == (FailoverView { timers: v.timer_cleared(node).timers, ..v }),
{
}

/// A failover is recorded: its node is failed over, once, and its timer stops; the event is the last
/// of the history. It counts against the quota, and starts the cooldown, exactly where it was
/// automatic.
pub proof fn law_failovers_are_recorded(
    v: FailoverView,
    node: Seq<char>,
    event: EventView,
    other: Seq<char>,
)
    requires
        v.auto_failover_count < u32::MAX,
        other != node,
    ensures
        ({
            let after = v.recorded(node, event);
            let automatic = event.failover_type == FailoverType::Automatic;
            &&& after.failed_over_nodes.contains(node)
            &&& v.failed_over_nodes.contains(node) ==> after.failed_over_nodes
                == v.failed_over_nodes
            &&& after.failed_over_nodes.contains(other) <==> v.failed_over_nodes.contains(other)
            &&& !after.timers.contains_key(node)
            &&& after.timers.contains_key(other) == v.timers.contains_key(other)
            &&& v.timers.contains_key(other) ==> after.timers[other] == v.timers[other]
            &&& automatic ==> after.auto_failover_count == v.auto_failover_count + 1
            &&& automatic ==> after.last_auto_failover == Some(event.timestamp)
            &&& !automatic ==> after.auto_failover_count == v.auto_failover_count
            &&& !automatic ==> after.last_auto_failover == v.last_auto_failover
            &&& after.config == v.config
            &&& after.events.last() == event
            &&& v.events.len() < 50 ==> after.events.drop_last() == v.events
            &&& v.events.len() == 50 ==> after.events.len() == 50 && after.events.drop_last()
                == v.events.drop_first()
        }),
{
    let after = v.recorded(node, event);
    if !v.failed_over_nodes.contains(node) {
        let list = after.failed_over_nodes;
        assert(list == v.failed_over_nodes.push(node));
        assert(list[v.failed_over_nodes.len() as int] == node);
        if v.failed_over_nodes.contains(other) {
            let i = choose|i: int|
                0 <= i < v.failed_over_nodes.len() && v.failed_over_nodes[i] == other;
            assert(list[i] == other);
        }
        if list.contains(other) {
            let i = choose|i: int| 0 <= i < list.len() && list[i] == other;
            assert(v.failed_over_nodes[i] == other);
        }
    }
    if v.events.len() < 50 {
        assert(after.events.drop_last() =~= v.events);
    }
    if v.events.len() == 50 {
        assert(after.events.drop_last() =~= v.events.drop_first());
    }
}

/// A recovered node is failed over no longer, where it stood in the list once; the other nodes stay.
pub proof fn law_recovered_nodes_are_back(v: FailoverView, node: Seq<char>, other: Seq<char>)
    requires
        v.failed_over_nodes.no_duplicates(),
        other != node,
    ensures
        !v.recovered(node).failed_over_nodes.contains(node),
        v.recovered(node).failed_over_nodes.contains(other) <==> v.failed_over_nodes.contains(other),
        v.failed_over_nodes.contains(node) ==> !v.recovered(node).timers.contains_key(node),
        !v.failed_over_nodes.contains(node) ==> v.recovered(node) == v,
        v.recovered(node).auto_failover_count == v.auto_failover_count,
        v.recovered(node).events == v.events,
        v.recovered(node).last_auto_failover == v.last_auto_failover,
        v.recovered(node).config == v.config,
{
    let list = v.failed_over_nodes;
    lemma_place_of(list, node, 0);
    let after = v.recovered(node).failed_over_nodes;
    match place_of(list, node, 0) {
        Some(p) => {
            assert(after == list.remove(p));
            if after.contains(node) {
                let i = choose|i: int| 0 <= i < after.len() && after[i] == node;
                let j = if i < p {
                    i
                } else {
                    i + 1
                };
                assert(list[j] == node && j != p);
            }
            if list.contains(other) {
                let j = choose|j: int| 0 <= j < list.len() && list[j] == other;
                let i = if j < p {
                    j
                } else {
                    j - 1
                };
                assert(after[i] == other);
            }
            if after.contains(other) {
                let i = choose|i: int| 0 <= i < after.len() && after[i] == other;
                let j = if i < p {
                    i
                } else {
                    i + 1
                };
                assert(list[j] == other);
            }
        },
        None => {},
    }
}

/// The event of a failover says which node, how, why and with what result.
pub proof fn law_failover_events_say_what_happened(
    id: Seq<char>,
    node: Seq<char>,
    kind: FailoverType,
    reason: Seq<char>,
    affected: usize,
    promoted: usize,
    triggered: bool,
    now: i128,
)
    ensures
        ({
            let e = event_of(id, node, kind, reason, affected, promoted, triggered, now);
            &&& e.id == id
            &&& e.node_name == node
            &&& e.failover_type == kind
            &&& e.reason == reason
            &&& e.vbuckets_affected == affected
            &&& e.replicas_promoted == promoted
            &&& e.rebalance_triggered == triggered
            &&& e.timestamp == now
            &&& e.completed_at == Some(now)
            &&& e.success
        }),
{
}

/// Nothing is failed over at first, no timer runs and nothing counts against the quota.
pub proof fn law_fresh_managers_have_no_history(config: FailoverConfig, node: Seq<char>)
    ensures
        ({
            let v = FailoverView::fresh(config);
            &&& v.config == config
            &&& v.auto_failover_count == 0
            &&& !v.is_failed_over(node)
            &&& !v.timers.contains_key(node)
            &&& v.events.len() == 0
            &&& v.last_auto_failover is None
        }),
{
}

/// Recovering a node leaves no node in the list of those failed over twice.
pub(crate) proof fn lemma_recovered_distinct(v: FailoverView, node: Seq<char>)
    requires
        v.failed_over_nodes.no_duplicates(),
    ensures
        v.recovered(node).failed_over_nodes.no_duplicates(),
{
    lemma_place_of(v.failed_over_nodes, node, 0);
    match place_of(v.failed_over_nodes, node, 0) {
        Some(p) => {
            let list = v.failed_over_nodes;
            let after = list.remove(p);
            assert forall|i: int, j: int|
                0 <= i < after.len() && 0 <= j < after.len() && i != j implies after[i]
                != after[j] by {
                let a = if i < p {
                    i
                } else {
                    i + 1
                };
                let b = if j < p {
                    j
                } else {
                    j + 1
                };
                assert(list[a] != list[b]);
            }
        },
        None => {},
    }
}

/// Where nothing is said, failover is automatic after two minutes of silence, at most three times,
/// never where data would be lost, only among two nodes or more, and not again within half a minute.
pub proof fn law_failover_settings_where_nothing_is_said()
    ensures
        ({
            let fresh = FailoverView::fresh(FailoverConfig::standard());
            &&& fresh.config.enabled
            &&& fresh.config.timeout_secs == 120
            &&& fresh.config.max_count == 3
            &&& !fresh.config.failover_on_data_loss
            &&& fresh.config.min_cluster_size == 2
            &&& fresh.config.cooldown_secs == 30
        }),
{
}

/// The reason why no automatic failover proceeds is the first of these that holds: it is switched off,
/// there were as many as may be, the last one was just now, or too few healthy nodes would be left.
pub proof fn law_first_obstacle_is_told(v: FailoverView, healthy: usize, now: i128)
    ensures
        !v.config.enabled ==> v.verdict_text(healthy, now) == "Auto-failover is disabled"@,
        v.config.enabled && v.auto_failover_count >= v.config.max_count ==> v.verdict_text(
            healthy,
            now,
        ) == "Auto-failover quota exhausted ("@ + dec(v.auto_failover_count as nat) + "/"@ + dec(
            v.config.max_count as nat,
        ) + "). Reset required."@,
        v.config.enabled && v.auto_failover_count < v.config.max_count && !v.cooling_down(now)
            && healthy < v.config.min_cluster_size ==> v.verdict_text(healthy, now)
            == "Would leave only "@ + dec(healthy as nat) + " healthy nodes (minimum: "@ + dec(
            v.config.min_cluster_size as nat,
        ) + ")"@,
        v.config.enabled && v.auto_failover_count < v.config.max_count && v.cooling_down(now)
            ==> v.verdict_text(healthy, now) == "Cooldown active: "@ + dec(
            (v.config.cooldown_secs - elapsed_secs(now, v.last_auto_failover->0)) as nat,
        ) + "s remaining"@,
{
}

} // verus!
