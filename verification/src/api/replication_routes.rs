//! Requests of one node to another: consensus and replication.

use crate::api::bucket_routes::{ok_answer, ok_json};
use crate::cluster::chronicle::{
    committed_after, entry_views, first_at, Chronicle, CommitNotification, ConfigChangeType,
    ConfigEntry, ConfigProposal, EntryStatus, EntryView,
};
use crate::cluster::durability::DurabilityManager;
use crate::cluster::orchestrator::{OrchestratorState, OrchestratorView};
use crate::json::{
    json_number, json_opt_text, json_text, json_texts, number, text_items, text_or_null, Json,
    JsonView,
};
use crate::text::dec;
use vstd::prelude::*;

verus! {

/// A node acknowledges an entry.
#[derive(Debug)]
pub struct AckRequest {
    pub index: u64,
    pub node: String,
}

/// From which entry on the log is asked for.
#[derive(Debug)]
pub struct LogQuery {
    pub since: Option<u64>,
}

/// The name of the state of an entry.
pub open spec fn entry_status_name(s: EntryStatus) -> Seq<char> {
    match s {
        EntryStatus::Prepared => "Prepared"@,
        EntryStatus::Committed => "Committed"@,
        EntryStatus::Failed => "Failed"@,
    }
}

fn entry_status_text(s: EntryStatus) -> (r: &'static str)
    ensures
        r@ == entry_status_name(s),
{
    match s {
        EntryStatus::Prepared => "Prepared",
        EntryStatus::Committed => "Committed",
        EntryStatus::Failed => "Failed",
    }
}

/// The name of a kind of change.
pub open spec fn change_type_name(t: ConfigChangeType) -> Seq<char> {
    match t {
        ConfigChangeType::BucketCreate => "BucketCreate"@,
        ConfigChangeType::BucketDelete => "BucketDelete"@,
        ConfigChangeType::BucketUpdate => "BucketUpdate"@,
        ConfigChangeType::ScopeCreate => "ScopeCreate"@,
        ConfigChangeType::ScopeDelete => "ScopeDelete"@,
        ConfigChangeType::CollectionCreate => "CollectionCreate"@,
        ConfigChangeType::CollectionDelete => "CollectionDelete"@,
        ConfigChangeType::NodeAdd => "NodeAdd"@,
        ConfigChangeType::NodeRemove => "NodeRemove"@,
        ConfigChangeType::NodeFailover => "NodeFailover"@,
        ConfigChangeType::NodeRecover => "NodeRecover"@,
        ConfigChangeType::PartitionMapUpdate => "PartitionMapUpdate"@,
        ConfigChangeType::ClusterSettingsUpdate => "ClusterSettingsUpdate"@,
        ConfigChangeType::ServerGroupAdd => "ServerGroupAdd"@,
        ConfigChangeType::ServerGroupDelete => "ServerGroupDelete"@,
        ConfigChangeType::ServerGroupNodeMove => "ServerGroupNodeMove"@,
    }
}

fn change_type_text(t: ConfigChangeType) -> (r: &'static str)
    ensures
        r@ == change_type_name(t),
{
    match t {
        ConfigChangeType::BucketCreate => "BucketCreate",
        ConfigChangeType::BucketDelete => "BucketDelete",
        ConfigChangeType::BucketUpdate => "BucketUpdate",
        ConfigChangeType::ScopeCreate => "ScopeCreate",
        ConfigChangeType::ScopeDelete => "ScopeDelete",
        ConfigChangeType::CollectionCreate => "CollectionCreate",
        ConfigChangeType::CollectionDelete => "CollectionDelete",
        ConfigChangeType::NodeAdd => "NodeAdd",
        ConfigChangeType::NodeRemove => "NodeRemove",
        ConfigChangeType::NodeFailover => "NodeFailover",
        ConfigChangeType::NodeRecover => "NodeRecover",
        ConfigChangeType::PartitionMapUpdate => "PartitionMapUpdate",
        ConfigChangeType::ClusterSettingsUpdate => "ClusterSettingsUpdate",
        ConfigChangeType::ServerGroupAdd => "ServerGroupAdd",
        ConfigChangeType::ServerGroupDelete => "ServerGroupDelete",
        ConfigChangeType::ServerGroupNodeMove => "ServerGroupNodeMove",
    }
}

/// The answer to a proposal that was taken.
pub open spec fn proposal_taken(entry: EntryView) -> JsonView {
    JsonView::object()
        .with("status"@, JsonView::Text("ok"@))
        .with("entry_index"@, number(entry.index as nat))
        .with("entry_status"@, JsonView::Text(entry_status_name(entry.status)))
        .with("term"@, number(entry.term as nat))
}

/// The answer to a proposal that has to go to the orchestrator.
pub open spec fn proposal_forwarded(message: Seq<char>, orchestrator: OrchestratorView) -> JsonView {
    JsonView::object()
        .with("status"@, JsonView::Text("error"@))
        .with("message"@, JsonView::Text(message))
        .with("forward_to"@, text_or_null(orchestrator.url))
        .with("orchestrator"@, JsonView::Text(orchestrator.node))
}

/// Takes a proposal, or says where the orchestrator is.
pub fn propose_config_change(
    chronicle: &mut Chronicle,
    proposal: ConfigProposal,
    orchestrator: &OrchestratorState,
) -> (r: Json)
    requires
        old(chronicle)@.next_index < u64::MAX,
    ensures
        if old(chronicle)@.is_leader {
            exists|now: i128|
                {
                    let e = #[trigger] old(chronicle)@.new_entry(
                        proposal.change_type,
                        proposal.payload@,
                        proposal.proposed_by@,
                        now,
                    );
                    final(chronicle)@ == old(chronicle)@.proposed(e) && r@ == proposal_taken(e)
                }
        } else {
            &&& final(chronicle)@ == old(chronicle)@
            &&& r@ == proposal_forwarded(
                "Not the orchestrator — proposal must be forwarded to leader"@,
                orchestrator@,
            )
        },
{
    match chronicle.propose(proposal) {
        Ok(entry) => Json::object()
            .with("status", json_text("ok"))
            .with("entry_index", json_number(entry.index))
            .with("entry_status", json_text(entry_status_text(entry.status)))
            .with("term", json_number(entry.term)),
        Err(message) => Json::object()
            .with("status", json_text("error"))
            .with("message", json_text(message.as_str()))
            .with("forward_to", json_opt_text(&orchestrator.orchestrator_url))
            .with("orchestrator", json_text(orchestrator.orchestrator_node.as_str())),
    }
}

/// The answer to an acknowledgement that commits an entry.
pub open spec fn entry_committed(entry: EntryView) -> JsonView {
    JsonView::object()
        .with("status"@, JsonView::Text("committed"@))
        .with("entry_index"@, number(entry.index as nat))
        .with("change_type"@, JsonView::Text(change_type_name(entry.change_type)))
        .with("acks"@, JsonView::Array(text_items(entry.acks)))
}

/// Takes the acknowledgement of a node.
pub fn handle_chronicle_ack(chronicle: &mut Chronicle, req: &AckRequest) -> (r: Json)
    ensures
        final(chronicle)@ == old(chronicle)@.acked(req.index, req.node@),
        r@ == if old(chronicle)@.ack_commits(req.index, req.node@) {
            entry_committed(final(chronicle)@.log[first_at(old(chronicle)@.log, req.index, 0)->0])
        } else {
            JsonView::object()
                .with("status"@, JsonView::Text("acknowledged"@))
                .with("message"@, JsonView::Text("ACK recorded, awaiting majority"@))
        },
{
    match chronicle.process_ack(req.index, req.node.as_str()) {
        Some(entry) => Json::object()
            .with("status", json_text("committed"))
            .with("entry_index", json_number(entry.index))
            .with("change_type", json_text(change_type_text(entry.change_type)))
            .with("acks", json_texts(&entry.acks)),
        None => Json::object()
            .with("status", json_text("acknowledged"))
            .with("message", json_text("ACK recorded, awaiting majority")),
    }
}

/// Takes the news that an entry is committed.
pub fn handle_chronicle_commit(chronicle: &mut Chronicle, notification: &CommitNotification) -> (r: Json)
    ensures
        final(chronicle)@ == old(chronicle)@.notified(notification.index, notification.term),
        r@ == JsonView::object()
            .with("status"@, JsonView::Text("ok"@))
            .with("committed_index"@, number(notification.index as nat)),
{
    chronicle.apply_commit(notification);
    Json::object()
        .with("status", json_text("ok"))
        .with("committed_index", json_number(notification.index))
}

/// The committed entries of the log.
pub struct LogAnswer {
    pub since_index: u64,
    pub entries: Vec<ConfigEntry>,
    pub count: usize,
    pub current_commit_index: u64,
}

/// The committed entries after the one that is named, or all.
pub fn get_chronicle_log(chronicle: &Chronicle, query: &LogQuery) -> (r: LogAnswer)
    ensures
        r.since_index == match query.since {
            Some(n) => n,
            None => 0,
        },
        entry_views(r.entries@) == committed_after(
            chronicle@.log,
            r.since_index,
            chronicle@.log.len() as int,
        ),
        r.count == r.entries@.len(),
        r.current_commit_index == chronicle@.commit_index,
{
    let since: u64 = match query.since {
        Some(n) => n,
        None => 0,
    };
    let entries = chronicle.get_committed_since(since);
    let count: usize = entries.len();
    LogAnswer {
        since_index: since,
        entries,
        count,
        current_commit_index: chronicle.get_commit_index(),
    }
}

/// The number of writes that wait to become durable.
pub fn get_durability_stats(durability: &DurabilityManager) -> (r: Json)
    ensures
        r@ == JsonView::object().with("pending_durable_writes"@, number(durability@.len())),
{
    Json::object().with("pending_durable_writes", json_number(durability.pending_count() as u64))
}

/// The answer when the replication within the cluster was paused or resumed.
pub fn replication_switched(paused: bool) -> (r: Json)
    ensures
        r@ == ok_json(
            if paused {
                "Intra-cluster replication paused"@
            } else {
                "Intra-cluster replication resumed"@
            },
        ),
{
    if paused {
        ok_answer("Intra-cluster replication paused")
    } else {
        ok_answer("Intra-cluster replication resumed")
    }
}

// ---- Laws ----

/// What is told of an entry of the log: its place, its term, its state and who has acknowledged it.
pub proof fn law_entries_are_told(entry: EntryView, message: Seq<char>, o: OrchestratorView)
    ensures
        proposal_taken(entry) is Object && proposal_taken(entry)->Object_0 =~= seq![
            ("status"@, JsonView::Text("ok"@)),
            ("entry_index"@, JsonView::Number(dec(entry.index as nat))),
            (
                "entry_status"@,
                JsonView::Text(
                    match entry.status {
                        EntryStatus::Prepared => "Prepared"@,
                        EntryStatus::Committed => "Committed"@,
                        EntryStatus::Failed => "Failed"@,
                    },
                ),
            ),
            ("term"@, JsonView::Number(dec(entry.term as nat))),
        ],
        entry_committed(entry) is Object && entry_committed(entry)->Object_0 =~= seq![
            ("status"@, JsonView::Text("committed"@)),
            ("entry_index"@, JsonView::Number(dec(entry.index as nat))),
            ("change_type"@, JsonView::Text(change_type_name(entry.change_type))),
            ("acks"@, JsonView::Array(text_items(entry.acks))),
        ],
        proposal_forwarded(message, o) is Object && proposal_forwarded(message, o)->Object_0 =~= seq![
            ("status"@, JsonView::Text("error"@)),
            ("message"@, JsonView::Text(message)),
            (
                "forward_to"@,
                match o.url {
                    Some(t) => JsonView::Text(t),
                    None => JsonView::Null,
                },
            ),
            ("orchestrator"@, JsonView::Text(o.node)),
        ],
{
}

} // verus!
