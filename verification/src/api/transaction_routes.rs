//! Requests about transactions.

use crate::api::backup_routes::Refusal;
use crate::json::{json_number, json_text, number, Json, JsonView};
use crate::text::{dec, opt_text, push_dec};
use vstd::prelude::*;
use vstd::string::*;

verus! {

/// How a transaction runs, as JSON text, where a request says so.
#[derive(Debug)]
pub struct BeginTransactionRequest {
    pub config: Option<String>,
}

/// A request about a document in a transaction.
#[derive(Debug)]
pub struct TransactionDocRequest {
    pub bucket: String,
    pub scope: Option<String>,
    pub collection: Option<String>,
    pub key: String,
    pub cas: Option<u64>,
}

/// A request to write a document in a transaction; the value is a JSON text.
#[derive(Debug)]
pub struct TransactionMutationRequest {
    pub bucket: String,
    pub scope: Option<String>,
    pub collection: Option<String>,
    pub key: String,
    pub value: Option<String>,
    pub cas: Option<u64>,
}

/// The steps of a transaction that wait for its end.
#[derive(Clone, Copy, Debug, PartialEq, Eq, Structural)]
pub enum StagedStep {
    Insert,
    Replace,
    Remove,
}

impl StagedStep {
    pub open spec fn name(self) -> Seq<char> {
        match self {
            StagedStep::Insert => "insert"@,
            StagedStep::Replace => "replace"@,
            StagedStep::Remove => "remove"@,
        }
    }

    pub fn to_text(self) -> (r: &'static str)
        ensures
            r@ == self.name(),
    {
        match self {
            StagedStep::Insert => "insert",
            StagedStep::Replace => "replace",
            StagedStep::Remove => "remove",
        }
    }
}

/// Which document a step is about, and what it writes.
#[derive(Debug)]
pub struct TransactionCall {
    pub bucket: String,
    pub scope: String,
    pub collection: String,
    pub key: String,
    pub value: Option<String>,
    /// The version that is expected; zero where none is.
    pub cas: u64,
}

/// A name, or that of the default.
pub open spec fn or_default(name: Option<String>) -> Seq<char> {
    match name {
        Some(n) => n@,
        None => "_default"@,
    }
}

fn name_or_default(name: &Option<String>) -> (r: String)
    ensures
        r@ == or_default(*name),
{
    match name {
        Some(n) => n.clone(),
        None => "_default".to_owned(),
    }
}

/// A number, or zero.
pub open spec fn or_zero(n: Option<u64>) -> u64 {
    match n {
        Some(x) => x,
        None => 0,
    }
}

fn number_or_zero(n: Option<u64>) -> (r: u64)
    ensures
        r == or_zero(n),
{
    match n {
        Some(x) => x,
        None => 0,
    }
}

/// Reads a request about a document.
pub fn read_doc_request(req: &TransactionDocRequest) -> (r: TransactionCall)
    ensures
        r.bucket@ == req.bucket@,
        r.scope@ == or_default(req.scope),
        r.collection@ == or_default(req.collection),
        r.key@ == req.key@,
        r.value is None,
        r.cas == or_zero(req.cas),
{
    TransactionCall {
        bucket: req.bucket.clone(),
        scope: name_or_default(&req.scope),
        collection: name_or_default(&req.collection),
        key: req.key.clone(),
        value: None,
        cas: number_or_zero(req.cas),
    }
}

/// Reads a request to write; without a value it is refused.
pub fn read_mutation_request(step: StagedStep, req: &TransactionMutationRequest) -> (r: std::result::Result<
    TransactionCall,
    Refusal,
>)
    ensures
        match (req.value, r) {
            (Some(value), Ok(call)) => {
                &&& call.bucket@ == req.bucket@
                &&& call.scope@ == or_default(req.scope)
                &&& call.collection@ == or_default(req.collection)
                &&& call.key@ == req.key@
                &&& opt_text(call.value) == Some(value@)
                &&& call.cas == or_zero(req.cas)
            },
            (None, Err(refusal)) => refusal.status == 400 && refusal.error@
                == "value is required for "@ + step.name(),
            _ => false,
        },
{
    match &req.value {
        Some(value) => Ok(
            TransactionCall {
                bucket: req.bucket.clone(),
                scope: name_or_default(&req.scope),
                collection: name_or_default(&req.collection),
                key: req.key.clone(),
                value: Some(value.clone()),
                cas: number_or_zero(req.cas),
            },
        ),
        None => {
            let mut error = "value is required for ".to_owned();
            error.append(step.to_text());
            Err(Refusal { status: 400, error })
        },
    }
}

/// The answer when a step waits for the end of its transaction.
pub fn step_staged(step: StagedStep, key: &str) -> (r: Json)
    ensures
        r@ == JsonView::object()
            .with("status"@, JsonView::Text("staged"@))
            .with("operation"@, JsonView::Text(step.name()))
            .with("key"@, JsonView::Text(key@)),
{
    Json::object()
        .with("status", json_text("staged"))
        .with("operation", json_text(step.to_text()))
        .with("key", json_text(key))
}

/// What is said in the audit log and in the answer.
pub struct TransactionReport {
    pub audit: String,
    pub status: u16,
    pub answer: Json,
}

/// A transaction has begun.
pub fn transaction_begun(id: &str) -> (r: TransactionReport)
    ensures
        r.audit@ == "Transaction "@ + id@ + " started"@,
        r.status == 201,
        r.answer@ == JsonView::object()
            .with("status"@, JsonView::Text("ok"@))
            .with("txn_id"@, JsonView::Text(id@)),
{
    let mut audit = "Transaction ".to_owned();
    audit.append(id);
    audit.append(" started");
    let answer = Json::object().with("status", json_text("ok")).with("txn_id", json_text(id));
    TransactionReport { audit, status: 201, answer }
}

/// A transaction is committed.
pub fn transaction_committed(id: &str, mutations: usize, elapsed_ms: u64) -> (r: TransactionReport)
    ensures
        r.audit@ == "Transaction "@ + id@ + " committed ("@ + dec(mutations as nat)
            + " mutations, "@ + dec(elapsed_ms as nat) + "ms)"@,
        r.status == 200,
        r.answer@ == JsonView::object()
            .with("status"@, JsonView::Text("committed"@))
            .with("txn_id"@, JsonView::Text(id@))
            .with("mutations_applied"@, number(mutations as nat))
            .with("elapsed_ms"@, number(elapsed_ms as nat)),
{
    let mut audit = "Transaction ".to_owned();
    audit.append(id);
    audit.append(" committed (");
    push_dec(&mut audit, mutations as u64);
    audit.append(" mutations, ");
    push_dec(&mut audit, elapsed_ms);
    audit.append("ms)");
    let answer = Json::object()
        .with("status", json_text("committed"))
        .with("txn_id", json_text(id))
        .with("mutations_applied", json_number(mutations as u64))
        .with("elapsed_ms", json_number(elapsed_ms));
    TransactionReport { audit, status: 200, answer }
}

/// A transaction is rolled back.
pub fn transaction_rolled_back(id: &str) -> (r: TransactionReport)
    ensures
        r.audit@ == "Transaction "@ + id@ + " rolled back"@,
        r.status == 200,
        r.answer@ == JsonView::object()
            .with("status"@, JsonView::Text("rolled_back"@))
            .with("txn_id"@, JsonView::Text(id@)),
{
    let mut audit = "Transaction ".to_owned();
    audit.append(id);
    audit.append(" rolled back");
    let answer = Json::object()
        .with("status", json_text("rolled_back"))
        .with("txn_id", json_text(id));
    TransactionReport { audit, status: 200, answer }
}

/// The requests about transactions that the engine can refuse.
#[derive(Clone, Copy, Debug, PartialEq, Eq, Structural)]
pub enum TransactionRequest {
    Begin,
    Step,
    Commit,
    Rollback,
}

/// The answer when the engine refuses a request: a commit that fails is a conflict.
pub fn transaction_refused(request: TransactionRequest, error: String) -> (r: Refusal)
    ensures
        r.error@ == error@,
        r.status == match request {
            TransactionRequest::Begin => 500u16,
            TransactionRequest::Commit => 409u16,
            _ => 400u16,
        },
{
    let status: u16 = match request {
        TransactionRequest::Begin => 500,
        TransactionRequest::Commit => 409,
        _ => 400,
    };
    Refusal { status, error }
}

/// The answer where there is no such transaction.
pub fn transaction_missing(id: &str) -> (r: Refusal)
    ensures
        r.status == 404,
        r.error@ == "Transaction '"@ + id@ + "' not found"@,
{
    let mut error = "Transaction '".to_owned();
    error.append(id);
    error.append("' not found");
    Refusal { status: 404, error }
}

// ---- Laws ----

/// A name that is not given is that of the default, and a version that is not given is zero.
pub proof fn law_what_is_not_given_is_the_default(name: String, n: u64)
    ensures
        or_default(Some(name)) == name@,
        or_default(None) == "_default"@,
        or_zero(Some(n)) == n,
        or_zero(None) == 0,
        StagedStep::Insert.name() == "insert"@,
        StagedStep::Replace.name() == "replace"@,
        StagedStep::Remove.name() == "remove"@,
{
}

} // verus!
