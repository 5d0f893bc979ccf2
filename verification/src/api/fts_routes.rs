//! Requests about search indexes.

use crate::api::bucket_routes::{about, about_text, ok_answer, ok_json};
use crate::api::dcp_routes::{error_answer, error_json};
use crate::fts::analyzer::AnalyzerConfig;
use crate::fts::json::FtsFieldMapping;
use crate::json::{json_number, json_text, number, Json, JsonView};
use crate::text::{dec, push_dec};
use vstd::prelude::*;
use vstd::string::*;

verus! {

/// A request to create a search index.
#[derive(Debug)]
pub struct CreateFtsIndexRequest {
    pub name: String,
    pub bucket: String,
    pub fields: Vec<FtsFieldMapping>,
    pub analyzer: Option<AnalyzerConfig>,
}

/// The answer to a request to drop an index.
pub fn index_drop_answer(name: &str, outcome: &std::result::Result<(), String>) -> (r: Json)
    ensures
        r@ == match *outcome {
            Ok(_) => ok_json(about("FTS index"@, name@, "dropped"@)),
            Err(e) => error_json(e@),
        },
{
    match outcome {
        Ok(_) => {
            let message = about_text("FTS index", name, "dropped");
            ok_answer(message.as_str())
        },
        Err(e) => error_answer(e.as_str()),
    }
}

/// The answer to a request to build an index.
pub fn index_build_answer(name: &str, outcome: &std::result::Result<usize, String>) -> (r: Json)
    ensures
        r@ == match *outcome {
            Ok(count) => ok_json(
                about("FTS index"@, name@, "rebuilt with "@) + dec(count as nat) + " documents"@,
            ).with("doc_count"@, number(count as nat)),
            Err(e) => error_json(e@),
        },
{
    match outcome {
        Ok(count) => {
            let mut message = about_text("FTS index", name, "rebuilt with ");
            push_dec(&mut message, *count as u64);
            message.append(" documents");
            ok_answer(message.as_str()).with("doc_count", json_number(*count as u64))
        },
        Err(e) => error_answer(e.as_str()),
    }
}

/// The answer to a search that failed.
pub fn search_failure(error: &str) -> (r: Json)
    ensures
        r@ == JsonView::object()
            .with("status"@, JsonView::Text("errors"@))
            .with(
                "errors"@,
                JsonView::array().item(JsonView::object().with("msg"@, JsonView::Text(error@))),
            )
            .with("total_hits"@, number(0))
            .with("hits"@, JsonView::array())
            .with("took_ms"@, number(0)),
{
    Json::object()
        .with("status", json_text("errors"))
        .with("errors", Json::array().item(Json::object().with("msg", json_text(error))))
        .with("total_hits", json_number(0))
        .with("hits", Json::array())
        .with("took_ms", json_number(0))
}

} // verus!
