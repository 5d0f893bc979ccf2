//! Requests about streams of changes.

use crate::api::bucket_routes::{about, about_text, ok_answer, ok_json};
use crate::dcp::stream::{DcpEvent, DcpEventType, DcpStream, StreamView};
use crate::json::{json_number, json_text, number, Json, JsonView};
use vstd::prelude::*;
use vstd::string::*;

verus! {

/// A request for all present documents as changes.
#[derive(Debug)]
pub struct BackfillRequest {
    pub bucket: String,
    pub scope: Option<String>,
    pub collection: Option<String>,
}

/// How many events a poll returns at most.
pub const MAX_POLLED: usize = 1000;

/// What a poll has collected after one more event: it is taken in if the stream is about it.
pub open spec fn taken(stream: StreamView, collected: Seq<DcpEvent>, event: DcpEvent) -> Seq<DcpEvent> {
    if stream.is_about(event@.bucket, event@.scope, event@.collection) {
        collected.push(event)
    } else {
        collected
    }
}

/// What a poll collects of the first `k` events, until it is full.
pub open spec fn polled(stream: StreamView, events: Seq<DcpEvent>, k: int) -> Seq<DcpEvent>
    decreases k,
{
    if k <= 0 {
        Seq::empty()
    } else {
        let rest = polled(stream, events, k - 1);
        if rest.len() < MAX_POLLED {
            taken(stream, rest, events[k - 1])
        } else {
            rest
        }
    }
}

/// What a poll collects, one event after the other.
pub struct Poll {
    pub events: Vec<DcpEvent>,
}

impl View for Poll {
    type V = Seq<DcpEvent>;

    open spec fn view(&self) -> Seq<DcpEvent> {
        self.events@
    }
}

impl Poll {
    /// A poll that has collected nothing.
    pub fn new() -> (r: Poll)
        ensures
            r@ == Seq::<DcpEvent>::empty(),
    {
        Poll { events: Vec::new() }
    }

    /// Takes in an event if the stream is about it; says whether the poll goes on.
    pub fn offer(&mut self, stream: &DcpStream, event: DcpEvent) -> (r: bool)
        requires
            old(self)@.len() < MAX_POLLED,
        ensures
            final(self)@ == taken(stream@, old(self)@, event),
            r == (final(self)@.len() < MAX_POLLED),
    {
        if stream.accepts(&event) {
            self.events.push(event);
        }
        self.events.len() < MAX_POLLED
    }
}

/// However many events come, a poll collects at most so many, and only those that the stream is
/// about.
pub proof fn law_polls_follow_the_filters(
    stream: StreamView,
    events: Seq<DcpEvent>,
    k: int,
    i: int,
)
    requires
        0 <= k <= events.len(),
        0 <= i < polled(stream, events, k).len(),
    ensures
        polled(stream, events, k).len() <= MAX_POLLED,
        ({
            let e = polled(stream, events, k)[i]@;
            stream.is_about(e.bucket, e.scope, e.collection)
        }),
    decreases k,
{
    if k > 0 {
        let rest = polled(stream, events, k - 1);
        assert(rest.len() >= MAX_POLLED ==> polled(stream, events, k) == rest);
        if i < rest.len() {
            law_polls_follow_the_filters(stream, events, k - 1, i);
            assert(polled(stream, events, k)[i] == rest[i]);
        } else if rest.len() > 0 {
            law_polls_follow_the_filters(stream, events, k - 1, 0);
        }
    }
}

/// Whether an event is sent on: to whoever follows no stream, and to those whose stream is about
/// it.
pub fn is_sent(stream: Option<&DcpStream>, event: &DcpEvent) -> (r: bool)
    ensures
        r == match stream {
            Some(s) => s@.is_about(event@.bucket, event@.scope, event@.collection),
            None => true,
        },
{
    match stream {
        Some(s) => s.accepts(event),
        None => true,
    }
}

/// The name under which an event is sent.
pub fn sse_event_name(event_type: DcpEventType) -> (r: &'static str)
    ensures
        r@ == match event_type {
            DcpEventType::Mutation => "mutation"@,
            DcpEventType::Deletion => "deletion"@,
            DcpEventType::Expiration => "expiration"@,
        },
{
    match event_type {
        DcpEventType::Mutation => "mutation",
        DcpEventType::Deletion => "deletion",
        DcpEventType::Expiration => "expiration",
    }
}

/// What is sent first on a connection.
pub fn connected_data(stream_id: &str) -> (r: Json)
    ensures
        r@ == JsonView::object()
            .with("stream_id"@, JsonView::Text(stream_id@))
            .with("message"@, JsonView::Text("DCP SSE stream connected"@)),
{
    Json::object()
        .with("stream_id", json_text(stream_id))
        .with("message", json_text("DCP SSE stream connected"))
}

/// What is sent where events were lost because the reader is slow.
pub fn lagged_data(skipped: u64) -> (r: Json)
    ensures
        r@ == JsonView::object().with("skipped"@, number(skipped as nat)),
{
    Json::object().with("skipped", json_number(skipped))
}

/// What is sent when there will be no more events.
pub fn closed_data() -> (r: Json)
    ensures
        r@ == JsonView::object().with("message"@, JsonView::Text("DCP stream channel closed"@)),
{
    Json::object().with("message", json_text("DCP stream channel closed"))
}

/// The answer that something went wrong.
pub open spec fn error_json(error: Seq<char>) -> JsonView {
    JsonView::object().with("status"@, JsonView::Text("error"@)).with(
        "error"@,
        JsonView::Text(error),
    )
}

/// The answer that something went wrong.
pub fn error_answer(error: &str) -> (r: Json)
    ensures
        r@ == error_json(error@),
{
    Json::object().with("status", json_text("error")).with("error", json_text(error))
}

/// The answer to a request about a stream: what was done, or why it was not.
pub fn stream_answer(id: &str, what: &str, outcome: &std::result::Result<(), String>) -> (r: Json)
    ensures
        r@ == match *outcome {
            Ok(_) => ok_json(about("Stream"@, id@, what@)),
            Err(e) => error_json(e@),
        },
{
    match outcome {
        Ok(_) => {
            let message = about_text("Stream", id, what);
            ok_answer(message.as_str())
        },
        Err(e) => error_answer(e.as_str()),
    }
}

// ---- Laws ----

/// A poll collects, in their order, the first thousand events about what the stream is for.
pub proof fn law_polls_collect_the_first(stream: StreamView, events: Seq<DcpEvent>)
    ensures
        ({
            let wanted = events.filter(
                |e: DcpEvent| stream.is_about(e@.bucket, e@.scope, e@.collection),
            );
            polled(stream, events, events.len() as int) == wanted.take(
                if wanted.len() < 1000 {
                    wanted.len() as int
                } else {
                    1000
                },
            )
        }),
{
    assert(events.take(events.len() as int) =~= events);
    lemma_polled(stream, events, events.len() as int);
}

proof fn lemma_polled(stream: StreamView, events: Seq<DcpEvent>, k: int)
    requires
        0 <= k <= events.len(),
    ensures
        ({
            let wanted = events.take(k).filter(
                |e: DcpEvent| stream.is_about(e@.bucket, e@.scope, e@.collection),
            );
            polled(stream, events, k) == wanted.take(
                if wanted.len() < 1000 {
                    wanted.len() as int
                } else {
                    1000
                },
            )
        }),
    decreases k,
{
    reveal(Seq::filter);
    let s = events.take(k);
    let keep = |e: DcpEvent| stream.is_about(e@.bucket, e@.scope, e@.collection);
    if k > 0 {
        lemma_polled(stream, events, k - 1);
        assert(s.drop_last() =~= events.take(k - 1));
        let before = s.drop_last().filter(keep);
        if keep(s.last()) {
            let wanted = before.push(s.last());
            assert(before.take(before.len() as int) =~= before);
            if before.len() < 1000 {
                assert(wanted.take(wanted.len() as int) =~= wanted);
            } else {
                assert(wanted.take(1000) =~= before.take(1000));
            }
        }
    }
}

/// An error is told under the word for one.
pub proof fn law_errors_are_told(error: Seq<char>)
    ensures
        error_json(error) is Object && error_json(error)->Object_0 =~= seq![
            ("status"@, JsonView::Text("error"@)),
            ("error"@, JsonView::Text(error)),
        ],
{
}

} // verus!
