//! Requests about secondary indexes.

use crate::error::NosqlError;
use crate::json::{json_number, json_opt_text, json_text, json_texts, number, text_items, text_or_null, Json, JsonView};
use crate::text::{dec, opt_text, push_dec, texts};
use vstd::prelude::*;
use vstd::string::*;

verus! {

/// A request to create an index.
#[derive(Debug)]
pub struct CreateIndexRequest {
    pub name: String,
    pub bucket: String,
    pub fields: Vec<String>,
    pub condition: Option<String>,
}

/// An index as it is told; kind and state are names.
#[derive(Debug)]
pub struct IndexResponse {
    pub name: String,
    pub bucket: String,
    pub scope: String,
    pub collection: String,
    pub fields: Vec<String>,
    pub index_type: String,
    pub state: String,
    pub num_entries: usize,
    pub created_at: String,
    pub condition: Option<String>,
}

/// An index as it is told.
pub open spec fn index_json(x: IndexResponse) -> JsonView {
    JsonView::object()
        .with("name"@, JsonView::Text(x.name@))
        .with("bucket"@, JsonView::Text(x.bucket@))
        .with("scope"@, JsonView::Text(x.scope@))
        .with("collection"@, JsonView::Text(x.collection@))
        .with("fields"@, JsonView::Array(text_items(texts(x.fields@))))
        .with("index_type"@, JsonView::Text(x.index_type@))
        .with("state"@, JsonView::Text(x.state@))
        .with("num_entries"@, number(x.num_entries as nat))
        .with("created_at"@, JsonView::Text(x.created_at@))
        .with("condition"@, text_or_null(opt_text(x.condition)))
}

fn make_index(x: &IndexResponse) -> (r: Json)
    ensures
        r@ == index_json(*x),
{
    Json::object()
        .with("name", json_text(x.name.as_str()))
        .with("bucket", json_text(x.bucket.as_str()))
        .with("scope", json_text(x.scope.as_str()))
        .with("collection", json_text(x.collection.as_str()))
        .with("fields", json_texts(&x.fields))
        .with("index_type", json_text(x.index_type.as_str()))
        .with("state", json_text(x.state.as_str()))
        .with("num_entries", json_number(x.num_entries as u64))
        .with("created_at", json_text(x.created_at.as_str()))
        .with("condition", json_opt_text(&x.condition))
}

/// A sentence about the number of entries of an index.
pub open spec fn entries_sentence(name: Seq<char>, what: Seq<char>, entries: nat) -> Seq<char> {
    "Index '"@ + name + "' "@ + what + " with "@ + dec(entries) + " entries"@
}

fn make_entries_sentence(name: &str, what: &str, entries: usize) -> (r: String)
    ensures
        r@ == entries_sentence(name@, what@, entries as nat),
{
    let mut out = "Index '".to_owned();
    out.append(name);
    out.append("' ");
    out.append(what);
    out.append(" with ");
    push_dec(&mut out, entries as u64);
    out.append(" entries");
    out
}

/// The answer when an index was created and built.
pub fn index_created(index: &IndexResponse, entries: usize) -> (r: Json)
    ensures
        r@ == JsonView::object()
            .with("status"@, JsonView::Text("created"@))
            .with("index"@, index_json(*index))
            .with("entries_indexed"@, number(entries as nat))
            .with(
                "message"@,
                JsonView::Text(entries_sentence(index.name@, "created and built"@, entries as nat)),
            ),
{
    let message = make_entries_sentence(index.name.as_str(), "created and built", entries);
    Json::object()
        .with("status", json_text("created"))
        .with("index", make_index(index))
        .with("entries_indexed", json_number(entries as u64))
        .with("message", json_text(message.as_str()))
}

/// The answer when an index was rebuilt.
pub fn index_rebuilt(bucket: &str, index: &str, entries: usize) -> (r: Json)
    ensures
        r@ == JsonView::object()
            .with("status"@, JsonView::Text("rebuilt"@))
            .with("index"@, JsonView::Text(index@))
            .with("bucket"@, JsonView::Text(bucket@))
            .with("entries_indexed"@, number(entries as nat))
            .with(
                "message"@,
                JsonView::Text(entries_sentence(index@, "rebuilt"@, entries as nat)),
            ),
{
    let message = make_entries_sentence(index, "rebuilt", entries);
    Json::object()
        .with("status", json_text("rebuilt"))
        .with("index", json_text(index))
        .with("bucket", json_text(bucket))
        .with("entries_indexed", json_number(entries as u64))
        .with("message", json_text(message.as_str()))
}

/// The answer when an index was dropped.
pub fn index_dropped(bucket: &str, index: &str) -> (r: Json)
    ensures
        r@ == JsonView::object()
            .with("status"@, JsonView::Text("dropped"@))
            .with("index"@, JsonView::Text(index@))
            .with("bucket"@, JsonView::Text(bucket@))
            .with(
                "message"@,
                JsonView::Text("Index '"@ + index@ + "' dropped from bucket '"@ + bucket@ + "'"@),
            ),
{
    let mut message = "Index '".to_owned();
    message.append(index);
    message.append("' dropped from bucket '");
    message.append(bucket);
    message.append("'");
    Json::object()
        .with("status", json_text("dropped"))
        .with("index", json_text(index))
        .with("bucket", json_text(bucket))
        .with("message", json_text(message.as_str()))
}

/// The error where there is no such index.
pub fn index_missing(bucket: &str, index: &str) -> (r: NosqlError)
    ensures
        match r {
            NosqlError::InvalidRequest(m) => m@ == "Index '"@ + index@ + "' not found on bucket '"@
                + bucket@ + "'"@,
            _ => false,
        },
{
    let mut message = "Index '".to_owned();
    message.append(index);
    message.append("' not found on bucket '");
    message.append(bucket);
    message.append("'");
    NosqlError::InvalidRequest(message)
}

// ---- Laws ----

/// What is told of an index: each value under its own name.
pub proof fn law_indexes_are_told(x: IndexResponse)
    ensures
        index_json(x) is Object && index_json(x)->Object_0 =~= seq![
            ("name"@, JsonView::Text(x.name@)),
            ("bucket"@, JsonView::Text(x.bucket@)),
            ("scope"@, JsonView::Text(x.scope@)),
            ("collection"@, JsonView::Text(x.collection@)),
            ("fields"@, JsonView::Array(text_items(texts(x.fields@)))),
            ("index_type"@, JsonView::Text(x.index_type@)),
            ("state"@, JsonView::Text(x.state@)),
            ("num_entries"@, JsonView::Number(dec(x.num_entries as nat))),
            ("created_at"@, JsonView::Text(x.created_at@)),
            (
                "condition"@,
                match x.condition {
                    Some(t) => JsonView::Text(t@),
                    None => JsonView::Null,
                },
            ),
        ],
{
}

/// What is told of the size of an index: its name, then what was done and how many entries it has.
pub proof fn law_sizes_are_told(name: Seq<char>, what: Seq<char>, entries: nat)
    ensures
        entries_sentence(name, what, entries) == "Index '"@ + (name + ("' "@ + (what + (" with "@ + (
        dec(entries) + " entries"@))))),
{
    assert(entries_sentence(name, what, entries) =~= "Index '"@ + (name + ("' "@ + (what + (" with "@
        + (dec(entries) + " entries"@))))));
}

} // verus!
