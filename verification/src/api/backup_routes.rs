//! Backups: their names and places, what goes into them and what comes back.

use crate::api::bucket_routes::{ok_answer, ok_json, scope_views, ScopeResponse, ScopeView};
use crate::clock::{patterned_time, patterned_time_of, rfc3339, rfc3339_of};
use crate::json::{json_number, json_text, number, Json, JsonView};
use crate::text::{contains_text, copy_texts, dec, push_dec, same_text, texts};
use vstd::prelude::*;
use vstd::string::*;

verus! {

/// A request for a backup: under a name, of some buckets.
#[derive(Debug)]
pub struct CreateBackupRequest {
    pub name: Option<String>,
    pub buckets: Option<Vec<String>>,
}

/// A request to restore some buckets of a backup.
#[derive(Debug)]
pub struct RestoreRequest {
    pub buckets: Option<Vec<String>>,
}

/// The answer to a request that was refused: a status and what is the matter.
#[derive(Debug)]
pub struct Refusal {
    pub status: u16,
    pub error: String,
}

/// The name of a backup: the one that was asked for, else one made from the time.
pub fn backup_name(req: &CreateBackupRequest, now: i128) -> (r: String)
    ensures
        r@ == match req.name {
            Some(n) => n@,
            None => "backup_"@ + patterned_time_of(now, "%Y%m%d_%H%M%S"@),
        },
{
    match &req.name {
        Some(n) => n.clone(),
        None => {
            let mut out = "backup_".to_owned();
            let time = patterned_time(now, "%Y%m%d_%H%M%S");
            out.append(time.as_str());
            out
        },
    }
}

/// The directory of a backup.
pub open spec fn backup_dir_of(data_dir: Seq<char>, name: Seq<char>) -> Seq<char> {
    data_dir + "/backups/"@ + name
}

/// The directory of a backup.
pub fn backup_dir(data_dir: &str, name: &str) -> (r: String)
    ensures
        r@ == backup_dir_of(data_dir@, name@),
{
    let mut out = data_dir.to_owned();
    out.append("/backups/");
    out.append(name);
    out
}

/// A file or directory in a directory.
pub fn path_in(dir: &str, name: &str) -> (r: String)
    ensures
        r@ == dir@ + "/"@ + name@,
{
    let mut out = dir.to_owned();
    out.append("/");
    out.append(name);
    out
}

/// The buckets that go into a backup: those that were asked for, else all.
pub fn buckets_to_backup(req: &CreateBackupRequest, all: &Vec<String>) -> (r: Vec<String>)
    ensures
        texts(r@) == match req.buckets {
            Some(names) => texts(names@),
            None => texts(all@),
        },
{
    match &req.buckets {
        Some(names) => copy_texts(names),
        None => copy_texts(all),
    }
}

/// Whether a bucket of a backup is restored: all are, unless some were asked for.
pub fn is_restored(req: &RestoreRequest, bucket: &str) -> (r: bool)
    ensures
        r == match req.buckets {
            Some(names) => texts(names@).contains(bucket@),
            None => true,
        },
{
    match &req.buckets {
        Some(names) => contains_text(names, bucket),
        None => true,
    }
}

/// What became of a bucket.
#[derive(Debug)]
pub enum BucketOutcome {
    /// It was saved or restored, with that many documents.
    Done(String, usize),
    /// It was passed over.
    PassedOver,
    /// It could not be read, and no more is restored.
    Failed(String),
}

/// The buckets among the first `k` that were saved or restored.
pub open spec fn done_items(outcomes: Seq<BucketOutcome>, k: int) -> Seq<JsonView>
    decreases k,
{
    if k <= 0 {
        Seq::empty()
    } else {
        match outcomes[k - 1] {
            BucketOutcome::Done(bucket, docs) => done_items(outcomes, k - 1).push(
                JsonView::object()
                    .with("bucket"@, JsonView::Text(bucket@))
                    .with("documents"@, number(docs as nat)),
            ),
            _ => done_items(outcomes, k - 1),
        }
    }
}

/// The documents of the buckets among the first `k` that were saved or restored.
pub open spec fn done_docs(outcomes: Seq<BucketOutcome>, k: int) -> nat
    decreases k,
{
    if k <= 0 {
        0
    } else {
        done_docs(outcomes, k - 1) + match outcomes[k - 1] {
            BucketOutcome::Done(_, docs) => docs as nat,
            _ => 0nat,
        }
    }
}

/// The first failure at or after place `i`.
pub open spec fn first_failure(outcomes: Seq<BucketOutcome>, i: int) -> Option<Seq<char>>
    decreases outcomes.len() - i,
{
    if i < 0 || i >= outcomes.len() {
        None
    } else {
        match outcomes[i] {
            BucketOutcome::Failed(e) => Some(e@),
            _ => first_failure(outcomes, i + 1),
        }
    }
}

proof fn lemma_docs_grow(outcomes: Seq<BucketOutcome>, a: int, b: int)
    requires
        a <= b,
    ensures
        done_docs(outcomes, a) <= done_docs(outcomes, b),
    decreases b - a,
{
    if a < b {
        lemma_docs_grow(outcomes, a, b - 1);
    }
}

/// What was saved or restored.
pub struct Tally {
    pub items: Json,
    pub buckets: usize,
    pub documents: u64,
}

fn tally(outcomes: &Vec<BucketOutcome>) -> (r: Tally)
    requires
        done_docs(outcomes@, outcomes@.len() as int) <= u64::MAX,
    ensures
        r.items@ == JsonView::Array(done_items(outcomes@, outcomes@.len() as int)),
        r.buckets == done_items(outcomes@, outcomes@.len() as int).len(),
        r.documents == done_docs(outcomes@, outcomes@.len() as int),
{
    let mut items = Json::array();
    let mut buckets: usize = 0;
    let mut documents: u64 = 0;
    let mut k: usize = 0;
    while k < outcomes.len()
        invariant
            k <= outcomes@.len(),
            done_docs(outcomes@, outcomes@.len() as int) <= u64::MAX,
            items@ == JsonView::Array(done_items(outcomes@, k as int)),
            buckets == done_items(outcomes@, k as int).len(),
            buckets <= k,
            documents == done_docs(outcomes@, k as int),
        decreases outcomes@.len() - k,
    {
        proof {
            lemma_docs_grow(outcomes@, k + 1, outcomes@.len() as int);
        }
        match &outcomes[k] {
            BucketOutcome::Done(bucket, docs) => {
                items = items.item(
                    Json::object()
                        .with("bucket", json_text(bucket.as_str()))
                        .with("documents", json_number(*docs as u64)),
                );
                buckets = buckets + 1;
                documents = documents + *docs as u64;
            },
            _ => {},
        }
        k = k + 1;
    }
    Tally { items, buckets, documents }
}

/// What a backup leads to: the manifest that is written with it, what the audit log says, and the
/// answer.
pub struct BackupReport {
    pub manifest: Json,
    pub audit: String,
    pub answer: Json,
}

/// A sentence about the extent of a backup.
pub open spec fn backup_sentence(name: Seq<char>, what: Seq<char>, buckets: nat, docs: nat) -> Seq<char> {
    "Backup '"@ + name + "' "@ + what + " ("@ + dec(buckets) + " buckets, "@ + dec(docs) + " docs)"@
}

fn make_backup_sentence(name: &str, what: &str, buckets: usize, docs: u64) -> (r: String)
    ensures
        r@ == backup_sentence(name@, what@, buckets as nat, docs as nat),
{
    let mut out = "Backup '".to_owned();
    out.append(name);
    out.append("' ");
    out.append(what);
    out.append(" (");
    push_dec(&mut out, buckets as u64);
    out.append(" buckets, ");
    push_dec(&mut out, docs);
    out.append(" docs)");
    out
}

/// What a backup leads to, once its buckets have been dealt with; it is answered as created.
pub fn create_backup(name: &str, dir: &str, outcomes: &Vec<BucketOutcome>, now: i128) -> (r: BackupReport)
    requires
        done_docs(outcomes@, outcomes@.len() as int) <= u64::MAX,
    ensures
        ({
            let items = done_items(outcomes@, outcomes@.len() as int);
            let docs = done_docs(outcomes@, outcomes@.len() as int);
            &&& r.manifest@ == JsonView::object()
                .with("name"@, JsonView::Text(name@))
                .with("timestamp"@, JsonView::Text(rfc3339_of(now)))
                .with("buckets"@, JsonView::Array(items))
                .with("total_documents"@, number(docs))
            &&& r.audit@ == backup_sentence(name@, "created"@, items.len(), docs)
            &&& r.answer@ == JsonView::object()
                .with("status"@, JsonView::Text("ok"@))
                .with("backup"@, JsonView::Text(name@))
                .with("path"@, JsonView::Text(dir@))
                .with("buckets"@, number(items.len()))
                .with("total_documents"@, number(docs))
        }),
{
    let done = tally(outcomes);
    let audit = make_backup_sentence(name, "created", done.buckets, done.documents);
    let answer = Json::object()
        .with("status", json_text("ok"))
        .with("backup", json_text(name))
        .with("path", json_text(dir))
        .with("buckets", json_number(done.buckets as u64))
        .with("total_documents", json_number(done.documents));
    let manifest = Json::object()
        .with("name", json_text(name))
        .with("timestamp", json_text(rfc3339(now).as_str()))
        .with("buckets", done.items)
        .with("total_documents", json_number(done.documents));
    BackupReport { manifest, audit, answer }
}

/// What a restore leads to: what the audit log says, and the answer.
pub struct RestoreReport {
    pub audit: String,
    pub answer: Json,
}

/// What a restore leads to, once its buckets have been dealt with; the first that could not be read
/// fails it.
pub fn restore_backup(name: &str, outcomes: &Vec<BucketOutcome>) -> (r: std::result::Result<
    RestoreReport,
    Refusal,
>)
    requires
        done_docs(outcomes@, outcomes@.len() as int) <= u64::MAX,
    ensures
        match (first_failure(outcomes@, 0), r) {
            (Some(error), Err(refusal)) => refusal.status == 500 && refusal.error@ == error,
            (None, Ok(report)) => {
                let items = done_items(outcomes@, outcomes@.len() as int);
                let docs = done_docs(outcomes@, outcomes@.len() as int);
                &&& report.audit@ == backup_sentence(name@, "restored"@, items.len(), docs)
                &&& report.answer@ == JsonView::object()
                    .with("status"@, JsonView::Text("ok"@))
                    .with("backup"@, JsonView::Text(name@))
                    .with("buckets_restored"@, JsonView::Array(items))
                    .with("total_documents"@, number(docs))
            },
            _ => false,
        },
{
    let mut k: usize = 0;
    while k < outcomes.len()
        invariant
            k <= outcomes@.len(),
            first_failure(outcomes@, 0) == first_failure(outcomes@, k as int),
        decreases outcomes@.len() - k,
    {
        match &outcomes[k] {
            BucketOutcome::Failed(e) => {
                return Err(Refusal { status: 500, error: e.clone() });
            },
            _ => {},
        }
        k = k + 1;
    }
    let done = tally(outcomes);
    let audit = make_backup_sentence(name, "restored", done.buckets, done.documents);
    let answer = Json::object()
        .with("status", json_text("ok"))
        .with("backup", json_text(name))
        .with("buckets_restored", done.items)
        .with("total_documents", json_number(done.documents));
    Ok(RestoreReport { audit, answer })
}

/// The refusal where there is no such backup.
pub fn backup_missing(name: &str) -> (r: Refusal)
    ensures
        r.status == 404,
        r.error@ == "Backup '"@ + name@ + "' not found"@,
{
    let mut error = "Backup '".to_owned();
    error.append(name);
    error.append("' not found");
    Refusal { status: 404, error }
}

/// The answer when a backup was deleted, which is also what the audit log says.
pub fn backup_deleted(name: &str) -> (r: (String, Json))
    ensures
        r.0@ == "Backup '"@ + name@ + "' deleted"@,
        r.1@ == ok_json(r.0@),
{
    let mut message = "Backup '".to_owned();
    message.append(name);
    message.append("' deleted");
    let answer = ok_answer(message.as_str());
    (message, answer)
}

/// What a restored scope asks of the storage.
#[derive(Debug)]
pub enum ScopeCall {
    CreateScope(String),
    CreateCollection(String, String),
}

/// What a [`ScopeCall`] stands for.
pub enum ScopeCallView {
    CreateScope(Seq<char>),
    CreateCollection(Seq<char>, Seq<char>),
}

impl View for ScopeCall {
    type V = ScopeCallView;

    open spec fn view(&self) -> ScopeCallView {
        match *self {
            ScopeCall::CreateScope(s) => ScopeCallView::CreateScope(s@),
            ScopeCall::CreateCollection(s, c) => ScopeCallView::CreateCollection(s@, c@),
        }
    }
}

/// What a list of calls stands for.
pub open spec fn call_views(v: Seq<ScopeCall>) -> Seq<ScopeCallView> {
    Seq::new(v.len(), |i: int| v[i]@)
}

/// The calls for the first `k` collections of a scope: the default one of the default scope is there
/// already.
pub open spec fn collection_calls(scope: ScopeView, k: int) -> Seq<ScopeCallView>
    decreases k,
{
    if k <= 0 {
        Seq::empty()
    } else if scope.name == "_default"@ && scope.collections[k - 1] == "_default"@ {
        collection_calls(scope, k - 1)
    } else {
        collection_calls(scope, k - 1).push(
            ScopeCallView::CreateCollection(scope.name, scope.collections[k - 1]),
        )
    }
}

/// The calls for the first `k` scopes: the default one is there already.
pub open spec fn scope_calls_of(scopes: Seq<ScopeView>, k: int) -> Seq<ScopeCallView>
    decreases k,
{
    if k <= 0 {
        Seq::empty()
    } else {
        let scope = scopes[k - 1];
        let rest = scope_calls_of(scopes, k - 1);
        let own = if scope.name == "_default"@ {
            rest
        } else {
            rest.push(ScopeCallView::CreateScope(scope.name))
        };
        own + collection_calls(scope, scope.collections.len() as int)
    }
}

fn push_collection_calls(out: &mut Vec<ScopeCall>, scope: &ScopeResponse)
    ensures
        call_views(final(out)@) == call_views(old(out)@) + collection_calls(
            scope@,
            scope@.collections.len() as int,
        ),
{
    let ghost before = call_views(out@);
    let ghost names = texts(scope.collections@);
    let mut k: usize = 0;
    assert(before + collection_calls(scope@, 0) =~= before);
    while k < scope.collections.len()
        invariant
            k <= scope.collections@.len(),
            names == texts(scope.collections@),
            call_views(out@) == before + collection_calls(scope@, k as int),
        decreases scope.collections@.len() - k,
    {
        let ghost prior = out@;
        assert(names[k as int] == scope.collections@[k as int]@);
        if !(same_text(scope.name.as_str(), "_default") && same_text(
            scope.collections[k].as_str(),
            "_default",
        )) {
            let call = ScopeCall::CreateCollection(
                scope.name.clone(),
                scope.collections[k].clone(),
            );
            out.push(call);
            assert(call_views(out@) =~= call_views(prior).push(call@));
        }
        k = k + 1;
        assert(call_views(out@) =~= before + collection_calls(scope@, k as int));
    }
}

/// What the scopes of a backup ask of the storage.
pub fn scope_calls(scopes: &Vec<ScopeResponse>) -> (r: Vec<ScopeCall>)
    ensures
        call_views(r@) == scope_calls_of(scope_views(scopes@), scopes@.len() as int),
{
    let ghost views = scope_views(scopes@);
    let mut out: Vec<ScopeCall> = Vec::new();
    let mut k: usize = 0;
    assert(call_views(out@) =~= scope_calls_of(views, 0));
    while k < scopes.len()
        invariant
            k <= scopes@.len(),
            views == scope_views(scopes@),
            call_views(out@) == scope_calls_of(views, k as int),
        decreases scopes@.len() - k,
    {
        let ghost prior = out@;
        assert(views[k as int] == scopes@[k as int]@);
        if !same_text(scopes[k].name.as_str(), "_default") {
            let call = ScopeCall::CreateScope(scopes[k].name.clone());
            out.push(call);
            assert(call_views(out@) =~= call_views(prior).push(call@));
        }
        push_collection_calls(&mut out, &scopes[k]);
        k = k + 1;
    }
    out
}

// ---- Laws ----

/// A backup stands in a directory of its own name below that for backups.
pub proof fn law_backups_have_their_directory(data_dir: Seq<char>, name: Seq<char>)
    ensures
        backup_dir_of(data_dir, name) == data_dir + ("/backups/"@ + name),
{
    assert(backup_dir_of(data_dir, name) =~= data_dir + ("/backups/"@ + name));
}

/// The number of documents of a bucket that was saved or restored; none of another.
pub open spec fn docs_done(o: BucketOutcome) -> nat {
    match o {
        BucketOutcome::Done(_, docs) => docs as nat,
        _ => 0,
    }
}

/// What is told of a backup are the buckets that were saved or restored, in their order, each with
/// its documents, and the sum of those.
pub proof fn law_saved_buckets_are_told(outcomes: Seq<BucketOutcome>, i: int)
    ensures
        ({
            let done = outcomes.filter(|o: BucketOutcome| o is Done);
            let items = done_items(outcomes, outcomes.len() as int);
            &&& items.len() == done.len()
            &&& 0 <= i < done.len() ==> items[i] is Object && items[i]->Object_0 =~= seq![
                ("bucket"@, JsonView::Text(done[i]->Done_0@)),
                ("documents"@, JsonView::Number(dec(done[i]->Done_1 as nat))),
            ]
            &&& done_docs(outcomes, outcomes.len() as int) == outcomes.fold_left(
                0nat,
                |sum: nat, o: BucketOutcome| sum + docs_done(o),
            )
        }),
{
    assert(outcomes.take(outcomes.len() as int) =~= outcomes);
    lemma_done(outcomes, outcomes.len() as int, i);
}

proof fn lemma_done(outcomes: Seq<BucketOutcome>, k: int, i: int)
    requires
        0 <= k <= outcomes.len(),
    ensures
        ({
            let done = outcomes.take(k).filter(|o: BucketOutcome| o is Done);
            let items = done_items(outcomes, k);
            &&& items.len() == done.len()
            &&& 0 <= i < done.len() ==> items[i] is Object && items[i]->Object_0 =~= seq![
                ("bucket"@, JsonView::Text(done[i]->Done_0@)),
                ("documents"@, JsonView::Number(dec(done[i]->Done_1 as nat))),
            ]
            &&& done_docs(outcomes, k) == outcomes.take(k).fold_left(
                0nat,
                |sum: nat, o: BucketOutcome| sum + docs_done(o),
            )
        }),
    decreases k,
{
    reveal(Seq::filter);
    let s = outcomes.take(k);
    if k > 0 {
        lemma_done(outcomes, k - 1, i);
        assert(s.drop_last() =~= outcomes.take(k - 1));
    }
}

/// The first bucket that could not be read gives the reason.
pub proof fn law_first_failure_is_told(a: Seq<BucketOutcome>, reason: String, b: Seq<BucketOutcome>)
    requires
        forall|i: int| 0 <= i < a.len() ==> !(#[trigger] a[i] is Failed),
    ensures
        first_failure(a + seq![BucketOutcome::Failed(reason)] + b, 0) == Some(reason@),
        first_failure(a, 0) is None,
{
    let s = a + seq![BucketOutcome::Failed(reason)] + b;
    lemma_no_failure(s, a, 0);
    lemma_no_failure(a, a, 0);
    assert(s[a.len() as int] == BucketOutcome::Failed(reason));
}

proof fn lemma_no_failure(s: Seq<BucketOutcome>, a: Seq<BucketOutcome>, i: int)
    requires
        0 <= i <= a.len() <= s.len(),
        forall|k: int| 0 <= k < a.len() ==> s[k] == #[trigger] a[k],
        forall|k: int| 0 <= k < a.len() ==> !(#[trigger] a[k] is Failed),
    ensures
        first_failure(s, i) == first_failure(s, a.len() as int),
    decreases a.len() - i,
{
    if i < a.len() {
        lemma_no_failure(s, a, i + 1);
        assert(s[i] == a[i]);
    }
}

/// A restored scope is made before its collections, each under its own name; the default scope and
/// its default collection are there already.
pub proof fn law_scopes_are_made_before_their_collections(a: Seq<ScopeView>, scope: ScopeView, i: int)
    ensures
        ({
            let before = scope_calls_of(a, a.len() as int);
            let calls = scope_calls_of(a.push(scope), a.len() as int + 1);
            let wanted = scope.collections.filter(
                |c: Seq<char>| !(scope.name == "_default"@ && c == "_default"@),
            );
            let first: int = if scope.name == "_default"@ {
                0
            } else {
                1
            };
            let own = calls.skip(before.len() as int);
            &&& calls.take(before.len() as int) =~= before
            &&& own.len() == first + wanted.len()
            &&& first == 1 ==> own[0] == ScopeCallView::CreateScope(scope.name)
            &&& 0 <= i < wanted.len() ==> own[first + i] == ScopeCallView::CreateCollection(
                scope.name,
                wanted[i],
            )
        }),
{
    let n = scope.collections.len() as int;
    assert(scope.collections.take(n) =~= scope.collections);
    lemma_collection_calls(scope, n, i);
    lemma_scope_calls(a, a.push(scope), a.len() as int);
    let before = scope_calls_of(a, a.len() as int);
    let calls = scope_calls_of(a.push(scope), a.len() as int + 1);
    assert(a.push(scope)[a.len() as int] == scope);
    assert(calls.take(before.len() as int) =~= before);
}

proof fn lemma_collection_calls(scope: ScopeView, k: int, i: int)
    requires
        0 <= k <= scope.collections.len(),
    ensures
        ({
            let wanted = scope.collections.take(k).filter(
                |c: Seq<char>| !(scope.name == "_default"@ && c == "_default"@),
            );
            let calls = collection_calls(scope, k);
            &&& calls.len() == wanted.len()
            &&& 0 <= i < wanted.len() ==> calls[i] == ScopeCallView::CreateCollection(
                scope.name,
                wanted[i],
            )
        }),
    decreases k,
{
    reveal(Seq::filter);
    let s = scope.collections.take(k);
    if k > 0 {
        lemma_collection_calls(scope, k - 1, i);
        assert(s.drop_last() =~= scope.collections.take(k - 1));
    }
}

proof fn lemma_scope_calls(a: Seq<ScopeView>, b: Seq<ScopeView>, k: int)
    requires
        k <= a.len(),
        k <= b.len(),
        forall|i: int| 0 <= i < k ==> a[i] == b[i],
    ensures
        scope_calls_of(a, k) == scope_calls_of(b, k),
    decreases k,
{
    if k > 0 {
        lemma_scope_calls(a, b, k - 1);
    }
}

/// What is told of the extent of a backup: its name, then how many buckets and how many documents.
pub proof fn law_extents_are_told(name: Seq<char>, what: Seq<char>, buckets: nat, docs: nat)
    ensures
        backup_sentence(name, what, buckets, docs) == "Backup '"@ + (name + ("' "@ + (what + (" ("@ + (
        dec(buckets) + (" buckets, "@ + (dec(docs) + " docs)"@))))))),
{
    assert(backup_sentence(name, what, buckets, docs) =~= "Backup '"@ + (name + ("' "@ + (what + (
    " ("@ + (dec(buckets) + (" buckets, "@ + (dec(docs) + " docs)"@))))))));
}

} // verus!
