//! Change streams: every change to a document becomes an event with a sequence number, and each
//! stream keeps track of how far it has come.

use crate::be_bytes::{be_bytes, lemma_be_bytes_len, push_be};
use crate::clock::{
    hash_number, number_hash, remaining_seconds, rfc3339, rfc3339_of, seconds_left, unix_nanos, utc_now,
};
use crate::document::Document;
use crate::hex::{hex_encode, hex_of, lemma_hex_chars};
use crate::idmap::IdMap;
use crate::strmap::StrMap;
use crate::text::{copy_opt, opt_str, opt_text, same_text};
use vstd::prelude::*;
use vstd::string::*;

verus! {

/// What happened to a document.
#[derive(Debug, Clone, Copy, PartialEq, Eq, Structural)]
pub enum DcpEventType {
    Mutation,
    Deletion,
    Expiration,
}

/// A change to a document. The value is a JSON text; none for deletions and expirations.
#[derive(Debug)]
pub struct DcpEvent {
    pub event_type: DcpEventType,
    pub key: String,
    pub value: Option<String>,
    pub cas: u64,
    pub seq_no: u64,
    pub vbucket_id: u16,
    pub bucket: String,
    pub scope: String,
    pub collection: String,
    pub timestamp: String,
    /// Seconds until the document expires; zero for never.
    pub expiry: u32,
    pub flags: u32,
    pub datatype: u8,
}

/// What a [`DcpEvent`] stands for.
#[verifier::ext_equal]
pub struct DcpEventView {
    pub event_type: DcpEventType,
    pub key: Seq<char>,
    pub value: Option<Seq<char>>,
    pub cas: u64,
    pub seq_no: u64,
    pub vbucket_id: u16,
    pub bucket: Seq<char>,
    pub scope: Seq<char>,
    pub collection: Seq<char>,
    pub timestamp: Seq<char>,
    pub expiry: u32,
    pub flags: u32,
    pub datatype: u8,
}

impl View for DcpEvent {
    type V = DcpEventView;

    open spec fn view(&self) -> DcpEventView {
        DcpEventView {
            event_type: self.event_type,
            key: self.key@,
            value: opt_text(self.value),
            cas: self.cas,
            seq_no: self.seq_no,
            vbucket_id: self.vbucket_id,
            bucket: self.bucket@,
            scope: self.scope@,
            collection: self.collection@,
            timestamp: self.timestamp@,
            expiry: self.expiry,
            flags: self.flags,
            datatype: self.datatype,
        }
    }
}

/// What a list of events stands for.
pub open spec fn event_views(v: Seq<DcpEvent>) -> Seq<DcpEventView> {
    Seq::new(v.len(), |i: int| v[i]@)
}

/// Where a stream stands in a vBucket.
#[derive(Debug, Clone, Copy, PartialEq, Eq, Structural)]
pub struct VBucketStreamState {
    pub start_seq_no: u64,
    /// Zero for a stream without end.
    pub end_seq_no: u64,
    pub vbucket_uuid: u64,
}

/// A change stream.
pub struct DcpStream {
    pub id: String,
    pub name: String,
    pub bucket: String,
    /// The scope it is about; none for all.
    pub scope_filter: Option<String>,
    /// The collection it is about; none for all.
    pub collection_filter: Option<String>,
    pub created_at: String,
    pub active: bool,
    pub events_streamed: u64,
    /// The last sequence number of each vBucket.
    pub cursors: IdMap<u64>,
}

/// What a [`DcpStream`] stands for.
#[verifier::ext_equal]
pub struct StreamView {
    pub id: Seq<char>,
    pub name: Seq<char>,
    pub bucket: Seq<char>,
    pub scope_filter: Option<Seq<char>>,
    pub collection_filter: Option<Seq<char>>,
    pub created_at: Seq<char>,
    pub active: bool,
    pub events_streamed: u64,
    pub cursors: Map<u16, u64>,
}

impl StreamView {
    /// Whether a filter lets a name through.
    pub open spec fn lets(filter: Option<Seq<char>>, name: Seq<char>) -> bool {
        filter is None || filter == Some(name)
    }

    /// Whether the stream is about that bucket, scope and collection.
    pub open spec fn is_about(self, bucket: Seq<char>, scope: Seq<char>, collection: Seq<char>) -> bool {
        self.bucket == bucket && Self::lets(self.scope_filter, scope) && Self::lets(
            self.collection_filter,
            collection,
        )
    }

    /// After an event went through.
    pub open spec fn advanced(self, vbucket_id: u16, seq: u64) -> Self {
        StreamView {
            events_streamed: (self.events_streamed + 1) as u64,
            cursors: self.cursors.insert(vbucket_id, seq),
            ..self
        }
    }
}

impl View for DcpStream {
    type V = StreamView;

    open spec fn view(&self) -> StreamView {
        StreamView {
            id: self.id@,
            name: self.name@,
            bucket: self.bucket@,
            scope_filter: opt_text(self.scope_filter),
            collection_filter: opt_text(self.collection_filter),
            created_at: self.created_at@,
            active: self.active,
            events_streamed: self.events_streamed,
            cursors: self.cursors@,
        }
    }
}

impl DcpStream {
    pub open spec fn wf(self) -> bool {
        self.cursors.wf()
    }

    /// A copy.
    pub fn copy(&self) -> (r: DcpStream)
        requires
            self.wf(),
        ensures
            r.wf(),
            r@ == self@,
    {
        let mut keys: Vec<u16> = Vec::new();
        let mut vals: Vec<u64> = Vec::new();
        let mut i: usize = 0;
        while i < self.cursors.keys.len()
            invariant
                i <= self.cursors.keys@.len(),
                self.wf(),
                keys@ == self.cursors.keys@.take(i as int),
                vals@ == self.cursors.vals@.take(i as int),
            decreases self.cursors.keys@.len() - i,
        {
            keys.push(self.cursors.keys[i]);
            vals.push(self.cursors.vals[i]);
            i = i + 1;
            assert(keys@ =~= self.cursors.keys@.take(i as int));
            assert(vals@ =~= self.cursors.vals@.take(i as int));
        }
        assert(keys@ =~= self.cursors.keys@);
        assert(vals@ =~= self.cursors.vals@);
        let cursors = IdMap { keys, vals };
        proof {
            lemma_same_cursors(cursors, self.cursors);
        }
        DcpStream {
            id: self.id.clone(),
            name: self.name.clone(),
            bucket: self.bucket.clone(),
            scope_filter: copy_opt(&self.scope_filter),
            collection_filter: copy_opt(&self.collection_filter),
            created_at: self.created_at.clone(),
            active: self.active,
            events_streamed: self.events_streamed,
            cursors,
        }
    }

    /// Whether the filters let an event through.
    fn lets_through(&self, scope: &str, collection: &str) -> (r: bool)
        ensures
            r == (StreamView::lets(self@.scope_filter, scope@) && StreamView::lets(
                self@.collection_filter,
                collection@,
            )),
    {
        let scope_ok = match &self.scope_filter {
            Some(s) => same_text(s.as_str(), scope),
            None => true,
        };
        let collection_ok = match &self.collection_filter {
            Some(c) => same_text(c.as_str(), collection),
            None => true,
        };
        scope_ok && collection_ok
    }

    /// Whether the stream is about an event.
    pub fn accepts(&self, event: &DcpEvent) -> (r: bool)
        ensures
            r == self@.is_about(event@.bucket, event@.scope, event@.collection),
    {
        same_text(self.bucket.as_str(), event.bucket.as_str()) && self.lets_through(
            event.scope.as_str(),
            event.collection.as_str(),
        )
    }
}

proof fn lemma_same_cursors(a: IdMap<u64>, b: IdMap<u64>)
    requires
        b.wf(),
        a.keys@ == b.keys@,
        a.vals@ == b.vals@,
    ensures
        a.wf(),
        a@ == b@,
{
    assert(a@ =~= b@) by {
        assert forall|k: u16| a@.contains_key(k) == b@.contains_key(k) by {
            assert(forall|i: int| a.at(k, i) == b.at(k, i));
        }
        assert forall|k: u16| a@.contains_key(k) implies a@[k] == b@[k] by {
            let i = choose|i: int| a.at(k, i);
            assert(b.at(k, i));
            a.lemma_place(i);
            b.lemma_place(i);
        }
    }
}

/// A request for a new stream.
#[derive(Debug)]
pub struct CreateStreamRequest {
    pub name: String,
    pub bucket: String,
    pub scope_filter: Option<String>,
    pub collection_filter: Option<String>,
    /// Where to start; zero for the beginning.
    pub from_seq_no: u64,
    /// Whether to send the present documents first.
    pub include_backfill: bool,
}

/// What a setting is where a request leaves it open.
pub fn default_true() -> (r: bool)
    ensures
        r,
{
    true
}

/// A stream and the number of events that wait for it.
pub struct StreamStatus {
    pub stream: DcpStream,
    pub buffer_size: usize,
}

/// The change streams of a node.
pub struct DcpEngine {
    pub streams: StrMap<DcpStream>,
    /// The next sequence number.
    pub global_seq: u64,
}

/// What a [`DcpEngine`] stands for.
#[verifier::ext_equal]
pub struct DcpView {
    pub streams: Map<Seq<char>, StreamView>,
    pub global_seq: u64,
}

/// What the streams of a [`DcpEngine`] stand for.
pub open spec fn stream_views(m: Map<Seq<char>, DcpStream>) -> Map<Seq<char>, StreamView> {
    Map::new(|k: Seq<char>| m.contains_key(k), |k: Seq<char>| m[k]@)
}

/// The id of a stream, made of a number.
pub open spec fn stream_id_of(h: u64) -> Seq<char> {
    "dcp-"@ + hex_of(be_bytes(h as nat, 8))
}

/// The id of a stream, made of a number.
pub fn stream_id(h: u64) -> (r: String)
    ensures
        r@ == stream_id_of(h),
{
    let mut bytes: Vec<u8> = Vec::new();
    push_be(&mut bytes, h, 8);
    assert(bytes@ =~= be_bytes(h as nat, 8));
    let mut out = "dcp-".to_owned();
    out.append(hex_encode(bytes.as_slice()).as_str());
    out
}

/// A new id for a stream, made of the time.
pub fn generate_stream_id() -> (r: String)
    ensures
        r@.len() == 20,
        exists|nanos: u128| r@ == stream_id_of(#[trigger] number_hash(nanos)),
{
    let h: u64 = hash_number(unix_nanos());
    let r = stream_id(h);
    proof {
        reveal_strlit("dcp-");
        lemma_be_bytes_len(h as nat, 8);
        lemma_hex_chars(be_bytes(h as nat, 8));
    }
    r
}

/// The event of a new value.
pub open spec fn mutation_event(
    seq: u64,
    bucket: Seq<char>,
    scope: Seq<char>,
    collection: Seq<char>,
    key: Seq<char>,
    value: Option<Seq<char>>,
    cas: u64,
    vbucket_id: u16,
    expiry: u32,
    now: i128,
) -> DcpEventView {
    DcpEventView {
        event_type: DcpEventType::Mutation,
        key,
        value,
        cas,
        seq_no: seq,
        vbucket_id,
        bucket,
        scope,
        collection,
        timestamp: rfc3339_of(now),
        expiry,
        flags: 0,
        datatype: if value is Some {
            1
        } else {
            0
        },
    }
}

/// The event of a removal.
pub open spec fn removal_event(
    event_type: DcpEventType,
    seq: u64,
    bucket: Seq<char>,
    scope: Seq<char>,
    collection: Seq<char>,
    key: Seq<char>,
    cas: u64,
    vbucket_id: u16,
    now: i128,
) -> DcpEventView {
    DcpEventView {
        event_type,
        key,
        value: None,
        cas,
        seq_no: seq,
        vbucket_id,
        bucket,
        scope,
        collection,
        timestamp: rfc3339_of(now),
        expiry: 0,
        flags: 0,
        datatype: 0,
    }
}

impl DcpView {
    /// After a mutation, a deletion or an expiration: every active stream that is about it
    /// advances.
    pub open spec fn published(
        self,
        bucket: Seq<char>,
        scope: Seq<char>,
        collection: Seq<char>,
        vbucket_id: u16,
    ) -> Self {
        DcpView {
            global_seq: (self.global_seq + 1) as u64,
            streams: Map::new(
                |k: Seq<char>| self.streams.contains_key(k),
                |k: Seq<char>|
                    if self.streams[k].active && self.streams[k].is_about(
                        bucket,
                        scope,
                        collection,
                    ) {
                        self.streams[k].advanced(vbucket_id, self.global_seq)
                    } else {
                        self.streams[k]
                    },
            ),
        }
    }

    /// After a stream was switched on or off.
    pub open spec fn switched(self, id: Seq<char>, active: bool) -> Self {
        DcpView {
            streams: self.streams.insert(id, StreamView { active, ..self.streams[id] }),
            ..self
        }
    }
}

impl View for DcpEngine {
    type V = DcpView;

    open spec fn view(&self) -> DcpView {
        DcpView { streams: stream_views(self.streams@), global_seq: self.global_seq }
    }
}

impl DcpEngine {
    /// Every stream has seen fewer events than sequence numbers were given out.
    pub open spec fn wf(self) -> bool {
        &&& self.streams.wf()
        &&& self.global_seq > 0
        &&& forall|k: Seq<char>| #[trigger]
            self.streams@.contains_key(k) ==> self.streams@[k].wf()
                && self.streams@[k].events_streamed < self.global_seq
    }

    pub fn new() -> (r: Self)
        ensures
            r.wf(),
            r@ == (DcpView { streams: Map::empty(), global_seq: 1 }),
    {
        let r = DcpEngine { streams: StrMap::new(), global_seq: 1 };
        assert(r@ =~= (DcpView { streams: Map::empty(), global_seq: 1 }));
        r
    }

    /// Lets the streams that are about an event advance.
    fn advance(&mut self, bucket: &str, scope: &str, collection: &str, vbucket_id: u16)
        requires
            old(self).wf(),
            old(self)@.global_seq < u64::MAX,
        ensures
            final(self).wf(),
            final(self)@ == old(self)@.published(bucket@, scope@, collection@, vbucket_id),
    {
        let ghost before = *self;
        let ghost target = before@.published(bucket@, scope@, collection@, vbucket_id);
        let seq: u64 = self.global_seq;
        let mut i: usize = 0;
        while i < self.streams.vals.len()
            invariant
                i <= self.streams.vals@.len(),
                before.wf(),
                before@.global_seq < u64::MAX,
                seq == before.global_seq,
                self.global_seq == before.global_seq,
                self.streams.keys@ == before.streams.keys@,
                self.streams.vals@.len() == before.streams.vals@.len(),
                self.streams.keys@.len() == self.streams.vals@.len(),
                target == before@.published(bucket@, scope@, collection@, vbucket_id),
                forall|k: int|
                    0 <= k < i ==> (#[trigger] self.streams.vals@[k])@
                        == target.streams[before.streams.keys@[k]@] && self.streams.vals@[k].wf()
                        && self.streams.vals@[k].events_streamed <= seq,
                forall|k: int|
                    i <= k < self.streams.vals@.len() ==> #[trigger] self.streams.vals@[k]
                        == before.streams.vals@[k],
            decreases self.streams.vals@.len() - i,
        {
            let ghost key = before.streams.keys@[i as int]@;
            proof {
                before.streams.lemma_place(i as int);
                assert(before.streams@.contains_key(key));
                assert(before@.streams[key] == self.streams.vals@[i as int]@);
                assert(target.streams.contains_key(key));
            }
            let takes = self.streams.vals[i].active && same_text(
                self.streams.vals[i].bucket.as_str(),
                bucket,
            ) && self.streams.vals[i].lets_through(scope, collection);
            if takes {
                let ghost stream0 = self.streams.vals@[i as int]@;
                let stream = &mut self.streams.vals[i];
                stream.events_streamed = stream.events_streamed + 1;
                stream.cursors.insert(vbucket_id, seq);
                assert(stream@ =~= stream0.advanced(vbucket_id, seq));
            }
            i = i + 1;
        }
        self.global_seq = self.global_seq + 1;
        proof {
            let after = *self;
            lemma_same_keys(after.streams, before.streams);
            assert(after@.streams =~= target.streams) by {
                assert forall|k: Seq<char>| after@.streams.contains_key(k)
                    == target.streams.contains_key(k) by {}
                assert forall|k: Seq<char>| after@.streams.contains_key(k) implies after@.streams[k]
                    == target.streams[k] by {
                    let p = choose|p: int| after.streams.at(k, p);
                    after.streams.lemma_place(p);
                }
            }
            assert forall|k: Seq<char>| #[trigger] after.streams@.contains_key(
                k,
            ) implies after.streams@[k].wf() && after.streams@[k].events_streamed
                < after.global_seq by {
                let p = choose|p: int| after.streams.at(k, p);
                after.streams.lemma_place(p);
            }
        }
    }

    /// Publishes a new value at a given time: gives it the next sequence number and returns the
    /// event.
    pub fn publish_mutation_at(
        &mut self,
        bucket: &str,
        scope: &str,
        collection: &str,
        key: &str,
        value: Option<&str>,
        cas: u64,
        vbucket_id: u16,
        expiry: u32,
        now: i128,
    ) -> (r: DcpEvent)
        requires
            old(self).wf(),
            old(self)@.global_seq < u64::MAX,
        ensures
            final(self).wf(),
            final(self)@ == old(self)@.published(bucket@, scope@, collection@, vbucket_id),
            r@ == mutation_event(
                old(self)@.global_seq,
                bucket@,
                scope@,
                collection@,
                key@,
                opt_str(value),
                cas,
                vbucket_id,
                expiry,
                now,
            ),
    {
        let seq: u64 = self.global_seq;
        let event = DcpEvent {
            event_type: DcpEventType::Mutation,
            key: key.to_owned(),
            value: match value {
                Some(v) => Some(v.to_owned()),
                None => None,
            },
            cas,
            seq_no: seq,
            vbucket_id,
            bucket: bucket.to_owned(),
            scope: scope.to_owned(),
            collection: collection.to_owned(),
            timestamp: rfc3339(now),
            expiry,
            flags: 0,
            datatype: if value.is_some() {
                1
            } else {
                0
            },
        };
        self.advance(bucket, scope, collection, vbucket_id);
        event
    }

    /// Publishes a new value.
    pub fn publish_mutation(
        &mut self,
        bucket: &str,
        scope: &str,
        collection: &str,
        key: &str,
        value: Option<&str>,
        cas: u64,
        vbucket_id: u16,
        expiry: u32,
    ) -> (r: DcpEvent)
        requires
            old(self).wf(),
            old(self)@.global_seq < u64::MAX,
        ensures
            final(self).wf(),
            final(self)@ == old(self)@.published(bucket@, scope@, collection@, vbucket_id),
            exists|now: i128|
                r@ == #[trigger] mutation_event(
                    old(self)@.global_seq,
                    bucket@,
                    scope@,
                    collection@,
                    key@,
                    opt_str(value),
                    cas,
                    vbucket_id,
                    expiry,
                    now,
                ),
    {
        let now: i128 = utc_now();
        self.publish_mutation_at(
            bucket,
            scope,
            collection,
            key,
            value,
            cas,
            vbucket_id,
            expiry,
            now,
        )
    }

    /// The event of a removal.
    fn removal(
        event_type: DcpEventType,
        seq: u64,
        bucket: &str,
        scope: &str,
        collection: &str,
        key: &str,
        cas: u64,
        vbucket_id: u16,
        now: i128,
    ) -> (r: DcpEvent)
        ensures
            r@ == removal_event(
                event_type,
                seq,
                bucket@,
                scope@,
                collection@,
                key@,
                cas,
                vbucket_id,
                now,
            ),
    {
        DcpEvent {
            event_type,
            key: key.to_owned(),
            value: None,
            cas,
            seq_no: seq,
            vbucket_id,
            bucket: bucket.to_owned(),
            scope: scope.to_owned(),
            collection: collection.to_owned(),
            timestamp: rfc3339(now),
            expiry: 0,
            flags: 0,
            datatype: 0,
        }
    }

    /// Publishes a deletion at a given time.
    pub fn publish_deletion_at(
        &mut self,
        bucket: &str,
        scope: &str,
        collection: &str,
        key: &str,
        cas: u64,
        vbucket_id: u16,
        now: i128,
    ) -> (r: DcpEvent)
        requires
            old(self).wf(),
            old(self)@.global_seq < u64::MAX,
        ensures
            final(self).wf(),
            final(self)@ == old(self)@.published(bucket@, scope@, collection@, vbucket_id),
            r@ == removal_event(
                DcpEventType::Deletion,
                old(self)@.global_seq,
                bucket@,
                scope@,
                collection@,
                key@,
                cas,
                vbucket_id,
                now,
            ),
    {
        let event = Self::removal(
            DcpEventType::Deletion,
            self.global_seq,
            bucket,
            scope,
            collection,
            key,
            cas,
            vbucket_id,
            now,
        );
        self.advance(bucket, scope, collection, vbucket_id);
        event
    }

    /// Publishes a deletion.
    pub fn publish_deletion(
        &mut self,
        bucket: &str,
        scope: &str,
        collection: &str,
        key: &str,
        cas: u64,
        vbucket_id: u16,
    ) -> (r: DcpEvent)
        requires
            old(self).wf(),
            old(self)@.global_seq < u64::MAX,
        ensures
            final(self).wf(),
            final(self)@ == old(self)@.published(bucket@, scope@, collection@, vbucket_id),
            exists|now: i128|
                r@ == #[trigger] removal_event(
                    DcpEventType::Deletion,
                    old(self)@.global_seq,
                    bucket@,
                    scope@,
                    collection@,
                    key@,
                    cas,
                    vbucket_id,
                    now,
                ),
    {
        let now: i128 = utc_now();
        self.publish_deletion_at(bucket, scope, collection, key, cas, vbucket_id, now)
    }

    /// Publishes an expiration at a given time.
    pub fn publish_expiration_at(
        &mut self,
        bucket: &str,
        scope: &str,
        collection: &str,
        key: &str,
        cas: u64,
        vbucket_id: u16,
        now: i128,
    ) -> (r: DcpEvent)
        requires
            old(self).wf(),
            old(self)@.global_seq < u64::MAX,
        ensures
            final(self).wf(),
            final(self)@ == old(self)@.published(bucket@, scope@, collection@, vbucket_id),
            r@ == removal_event(
                DcpEventType::Expiration,
                old(self)@.global_seq,
                bucket@,
                scope@,
                collection@,
                key@,
                cas,
                vbucket_id,
                now,
            ),
    {
        let event = Self::removal(
            DcpEventType::Expiration,
            self.global_seq,
            bucket,
            scope,
            collection,
            key,
            cas,
            vbucket_id,
            now,
        );
        self.advance(bucket, scope, collection, vbucket_id);
        event
    }

    /// Publishes an expiration.
    pub fn publish_expiration(
        &mut self,
        bucket: &str,
        scope: &str,
        collection: &str,
        key: &str,
        cas: u64,
        vbucket_id: u16,
    ) -> (r: DcpEvent)
        requires
            old(self).wf(),
            old(self)@.global_seq < u64::MAX,
        ensures
            final(self).wf(),
            final(self)@ == old(self)@.published(bucket@, scope@, collection@, vbucket_id),
            exists|now: i128|
                r@ == #[trigger] removal_event(
                    DcpEventType::Expiration,
                    old(self)@.global_seq,
                    bucket@,
                    scope@,
                    collection@,
                    key@,
                    cas,
                    vbucket_id,
                    now,
                ),
    {
        let now: i128 = utc_now();
        self.publish_expiration_at(bucket, scope, collection, key, cas, vbucket_id, now)
    }

    /// Creates a stream under an id and at a time; `bucket_error` says why there is no such
    /// bucket, if there is none.
    pub fn create_stream_at(
        &mut self,
        req: &CreateStreamRequest,
        bucket_error: Option<&str>,
        id: String,
        now: i128,
    ) -> (r: Result<DcpStream, String>)
        requires
            old(self).wf(),
        ensures
            final(self).wf(),
            match r {
                Ok(stream) => {
                    &&& bucket_error is None
                    &&& stream@ == new_stream(*req, id@, now)
                    &&& final(self)@ == (DcpView {
                        streams: old(self)@.streams.insert(id@, stream@),
                        ..old(self)@
                    })
                },
                Err(msg) => {
                    &&& bucket_error is Some
                    &&& msg@ == "Bucket error: "@ + bucket_error->0@
                    &&& final(self)@ == old(self)@
                },
            },
    {
        match bucket_error {
            Some(e) => {
                let mut msg = "Bucket error: ".to_owned();
                msg.append(e);
                return Err(msg);
            },
            None => {},
        }
        let ghost before = *self;
        let stream = DcpStream {
            id: id.clone(),
            name: req.name.clone(),
            bucket: req.bucket.clone(),
            scope_filter: copy_opt(&req.scope_filter),
            collection_filter: copy_opt(&req.collection_filter),
            created_at: rfc3339(now),
            active: true,
            events_streamed: 0,
            cursors: IdMap::new(),
        };
        assert(stream@ =~= new_stream(*req, id@, now));
        let kept = stream.copy();
        self.streams.insert(id, kept);
        proof {
            assert(self@.streams =~= before@.streams.insert(id@, stream@));
            assert forall|k: Seq<char>| #[trigger] self.streams@.contains_key(
                k,
            ) implies self.streams@[k].wf() && self.streams@[k].events_streamed
                < self.global_seq by {
                if k != id@ {
                    assert(before.streams@.contains_key(k));
                }
            }
        }
        Ok(stream)
    }

    /// Creates a stream.
    pub fn create_stream(&mut self, req: &CreateStreamRequest, bucket_error: Option<&str>) -> (r:
        Result<DcpStream, String>)
        requires
            old(self).wf(),
        ensures
            final(self).wf(),
            r is Ok == bucket_error is None,
            match r {
                Ok(stream) => {
                    &&& exists|now: i128| stream@ == #[trigger] new_stream(*req, stream@.id, now)
                    &&& exists|h: u64| stream@.id == #[trigger] stream_id_of(h)
                    &&& final(self)@ == (DcpView {
                        streams: old(self)@.streams.insert(stream@.id, stream@),
                        ..old(self)@
                    })
                },
                Err(msg) => msg@ == "Bucket error: "@ + bucket_error->0@ && final(self)@
                    == old(self)@,
            },
    {
        let id = generate_stream_id();
        let now: i128 = utc_now();
        self.create_stream_at(req, bucket_error, id, now)
    }

    /// A stream.
    pub fn get_stream(&self, stream_id: &str) -> (r: Option<DcpStream>)
        requires
            self.wf(),
        ensures
            match r {
                Some(s) => self@.streams.contains_key(stream_id@) && s@
                    == self@.streams[stream_id@],
                None => !self@.streams.contains_key(stream_id@),
            },
    {
        match self.streams.get(stream_id) {
            Some(s) => Some(s.copy()),
            None => None,
        }
    }

    /// All streams.
    pub fn list_streams(&self) -> (r: Vec<DcpStream>)
        requires
            self.wf(),
        ensures
            r@.len() == self@.streams.len(),
            forall|i: int|
                0 <= i < r@.len() ==> self@.streams.contains_value((#[trigger] r@[i])@),
            forall|k: Seq<char>| #[trigger]
                self@.streams.contains_key(k) ==> exists|i: int|
                    0 <= i < r@.len() && (#[trigger] r@[i])@ == self@.streams[k],
    {
        let mut out: Vec<DcpStream> = Vec::new();
        let mut i: usize = 0;
        while i < self.streams.vals.len()
            invariant
                i <= self.streams.vals@.len(),
                self.wf(),
                out@.len() == i,
                forall|k: int| 0 <= k < i ==> (#[trigger] out@[k])@ == self.streams.vals@[k]@,
            decreases self.streams.vals@.len() - i,
        {
            proof {
                self.streams.lemma_place(i as int);
            }
            out.push(self.streams.vals[i].copy());
            i = i + 1;
        }
        proof {
            self.streams.lemma_len();
            assert(self@.streams.dom() =~= self.streams@.dom());
            assert forall|i: int| 0 <= i < out@.len() implies self@.streams.contains_value(
                (#[trigger] out@[i])@,
            ) by {
                self.streams.lemma_place(i);
                let k = self.streams.keys@[i]@;
                assert(self@.streams.contains_key(k) && self@.streams[k] == out@[i]@);
            }
            assert forall|k: Seq<char>| #[trigger] self@.streams.contains_key(k) implies exists|i: int|
                0 <= i < out@.len() && (#[trigger] out@[i])@ == self@.streams[k] by {
                assert(self.streams@.contains_key(k));
                let p = choose|p: int| self.streams.at(k, p);
                self.streams.lemma_place(p);
                assert(out@[p]@ == self@.streams[k]);
            }
        }
        out
    }

    /// Closes a stream.
    pub fn close_stream(&mut self, stream_id: &str) -> (r: Result<(), String>)
        requires
            old(self).wf(),
        ensures
            final(self).wf(),
            match r {
                Ok(_) => old(self)@.streams.contains_key(stream_id@) && final(self)@ == (DcpView {
                    streams: old(self)@.streams.remove(stream_id@),
                    ..old(self)@
                }),
                Err(msg) => !old(self)@.streams.contains_key(stream_id@) && final(self)@
                    == old(self)@ && msg@ == no_stream(stream_id@),
            },
    {
        let ghost before = *self;
        let gone = self.streams.remove(stream_id);
        proof {
            assert(self@.streams =~= before@.streams.remove(stream_id@));
            assert forall|k: Seq<char>| #[trigger] self.streams@.contains_key(
                k,
            ) implies self.streams@[k].wf() && self.streams@[k].events_streamed
                < self.global_seq by {
                assert(before.streams@.contains_key(k));
            }
        }
        if gone.is_none() {
            assert(self@.streams =~= before@.streams);
            return Err(no_stream_text(stream_id));
        }
        Ok(())
    }

    /// Switches a stream on or off.
    fn switch(&mut self, stream_id: &str, active: bool) -> (r: Result<(), String>)
        requires
            old(self).wf(),
        ensures
            final(self).wf(),
            match r {
                Ok(_) => old(self)@.streams.contains_key(stream_id@) && final(self)@
                    == old(self)@.switched(stream_id@, active),
                Err(msg) => !old(self)@.streams.contains_key(stream_id@) && final(self)@
                    == old(self)@ && msg@ == no_stream(stream_id@),
            },
    {
        let ghost before = *self;
        let mut stream = match self.streams.get(stream_id) {
            Some(s) => s.copy(),
            None => {
                return Err(no_stream_text(stream_id));
            },
        };
        assert(before.streams@.contains_key(stream_id@));
        stream.active = active;
        let ghost view = stream@;
        self.streams.insert(stream_id.to_owned(), stream);
        proof {
            assert(view =~= (StreamView { active, ..before@.streams[stream_id@] }));
            assert(self@.streams =~= before@.streams.insert(stream_id@, view));
            assert forall|k: Seq<char>| #[trigger] self.streams@.contains_key(
                k,
            ) implies self.streams@[k].wf() && self.streams@[k].events_streamed
                < self.global_seq by {
                if k != stream_id@ {
                    assert(before.streams@.contains_key(k));
                }
            }
        }
        Ok(())
    }

    /// Pauses a stream.
    pub fn pause_stream(&mut self, stream_id: &str) -> (r: Result<(), String>)
        requires
            old(self).wf(),
        ensures
            final(self).wf(),
            match r {
                Ok(_) => old(self)@.streams.contains_key(stream_id@) && final(self)@
                    == old(self)@.switched(stream_id@, false),
                Err(msg) => !old(self)@.streams.contains_key(stream_id@) && final(self)@
                    == old(self)@ && msg@ == no_stream(stream_id@),
            },
    {
        self.switch(stream_id, false)
    }

    /// Resumes a stream.
    pub fn resume_stream(&mut self, stream_id: &str) -> (r: Result<(), String>)
        requires
            old(self).wf(),
        ensures
            final(self).wf(),
            match r {
                Ok(_) => old(self)@.streams.contains_key(stream_id@) && final(self)@
                    == old(self)@.switched(stream_id@, true),
                Err(msg) => !old(self)@.streams.contains_key(stream_id@) && final(self)@
                    == old(self)@ && msg@ == no_stream(stream_id@),
            },
    {
        self.switch(stream_id, true)
    }

    /// The present documents of a bucket as events, each with a sequence number.
    pub fn backfill(
        &mut self,
        bucket_name: &str,
        scope_filter: Option<&str>,
        collection_filter: Option<&str>,
        docs: &Vec<Document>,
        now: i128,
    ) -> (r: Vec<DcpEvent>)
        requires
            old(self).wf(),
            old(self)@.global_seq + docs@.len() <= u64::MAX,
        ensures
            final(self).wf(),
            event_views(r@) == backfill_events(
                docs@,
                old(self)@.global_seq,
                bucket_name@,
                name_or_default(scope_filter),
                name_or_default(collection_filter),
                now,
                docs@.len() as int,
            ),
            final(self)@ == (DcpView {
                global_seq: (old(self)@.global_seq + r@.len()) as u64,
                ..old(self)@
            }),
    {
        let ghost before = *self;
        let start: u64 = self.global_seq;
        let scope = match scope_filter {
            Some(s) => s,
            None => "_default",
        };
        let collection = match collection_filter {
            Some(c) => c,
            None => "_default",
        };
        let mut events: Vec<DcpEvent> = Vec::new();
        let mut seq: u64 = start;
        let mut k: usize = 0;
        assert(event_views(events@) =~= backfill_events(
            docs@,
            start,
            bucket_name@,
            scope@,
            collection@,
            now,
            0,
        ));
        while k < docs.len()
            invariant
                k <= docs@.len(),
                start + docs@.len() <= u64::MAX,
                events@.len() <= k,
                seq == start + events@.len(),
                event_views(events@) == backfill_events(
                    docs@,
                    start,
                    bucket_name@,
                    scope@,
                    collection@,
                    now,
                    k as int,
                ),
            decreases docs@.len() - k,
        {
            let ghost prior = events@;
            assert(event_views(prior).len() == prior.len());
            let doc = &docs[k];
            if !doc.deleted {
                let event = DcpEvent {
                    event_type: DcpEventType::Mutation,
                    key: doc.key.clone(),
                    value: Some(doc.value.clone()),
                    cas: doc.cas,
                    seq_no: seq,
                    vbucket_id: doc.vbucket_id,
                    bucket: bucket_name.to_owned(),
                    scope: scope.to_owned(),
                    collection: collection.to_owned(),
                    timestamp: rfc3339(doc.updated_at),
                    expiry: seconds_left(doc.expiry, now),
                    flags: 0,
                    datatype: 1,
                };
                events.push(event);
                seq = seq + 1;
                assert(event_views(events@) =~= event_views(prior).push(event@));
            }
            k = k + 1;
        }
        self.global_seq = seq;
        proof {
            assert forall|k: Seq<char>| #[trigger] self.streams@.contains_key(
                k,
            ) implies self.streams@[k].wf() && self.streams@[k].events_streamed
                < self.global_seq by {
                assert(before.streams@.contains_key(k));
            }
        }
        events
    }

    /// The failover log of a vBucket: one entry, without id and sequence number.
    pub fn get_failover_log(&self, _bucket: &str, _vbucket_id: u16) -> (r: Vec<(u64, u64)>)
        ensures
            r@ == seq![(0u64, 0u64)],
    {
        let mut out: Vec<(u64, u64)> = Vec::new();
        out.push((0, 0));
        assert(out@ =~= seq![(0u64, 0u64)]);
        out
    }

    /// The highest sequence number.
    pub fn get_high_seq_no(&self, _bucket: &str, _vbucket_id: u16) -> (r: u64)
        ensures
            r == self@.global_seq,
    {
        self.global_seq
    }
}

/// The stream that a request asks for.
pub open spec fn new_stream(req: CreateStreamRequest, id: Seq<char>, now: i128) -> StreamView {
    StreamView {
        id,
        name: req.name@,
        bucket: req.bucket@,
        scope_filter: opt_text(req.scope_filter),
        collection_filter: opt_text(req.collection_filter),
        created_at: rfc3339_of(now),
        active: true,
        events_streamed: 0,
        cursors: Map::empty(),
    }
}

/// A given name, or the default one.
pub open spec fn name_or_default(name: Option<&str>) -> Seq<char> {
    match name {
        Some(s) => s@,
        None => "_default"@,
    }
}

/// The first `k` documents as events, those deleted left out, numbered from `start`.
pub open spec fn backfill_events(
    docs: Seq<Document>,
    start: u64,
    bucket: Seq<char>,
    scope: Seq<char>,
    collection: Seq<char>,
    now: i128,
    k: int,
) -> Seq<DcpEventView>
    decreases k,
{
    if k <= 0 {
        Seq::empty()
    } else {
        let rest = backfill_events(docs, start, bucket, scope, collection, now, k - 1);
        let doc = docs[k - 1];
        if doc.deleted {
            rest
        } else {
            rest.push(
                DcpEventView {
                    event_type: DcpEventType::Mutation,
                    key: doc.key@,
                    value: Some(doc.value@),
                    cas: doc.cas,
                    seq_no: (start + rest.len()) as u64,
                    vbucket_id: doc.vbucket_id,
                    bucket,
                    scope,
                    collection,
                    timestamp: rfc3339_of(doc.updated_at),
                    expiry: remaining_seconds(doc.expiry, now),
                    flags: 0,
                    datatype: 1,
                },
            )
        }
    }
}

/// The message about a stream that is not there.
pub open spec fn no_stream(id: Seq<char>) -> Seq<char> {
    "Stream '"@ + id + "' not found"@
}

fn no_stream_text(id: &str) -> (r: String)
    ensures
        r@ == no_stream(id@),
{
    let mut msg = "Stream '".to_owned();
    msg.append(id);
    msg.append("' not found");
    msg
}

proof fn lemma_same_keys(a: StrMap<DcpStream>, b: StrMap<DcpStream>)
    requires
        b.wf(),
        a.keys@ == b.keys@,
        a.keys@.len() == a.vals@.len(),
    ensures
        a.wf(),
        forall|k: Seq<char>| #[trigger] a@.contains_key(k) == b@.contains_key(k),
{
    assert forall|k: Seq<char>| #[trigger] a@.contains_key(k) == b@.contains_key(k) by {
        assert(forall|i: int| a.at(k, i) == b.at(k, i));
    }
}

// ---- Laws ----

/// Every event gets a higher sequence number than the one before.
pub proof fn law_sequence_numbers_ascend(
    v: DcpView,
    bucket: Seq<char>,
    scope: Seq<char>,
    collection: Seq<char>,
    vbucket_id: u16,
)
    requires
        v.global_seq < u64::MAX,
    ensures
        v.published(bucket, scope, collection, vbucket_id).global_seq > v.global_seq,
{
}

/// A paused stream stands still, and a resumed one goes on from where it was.
pub proof fn law_paused_streams_stand_still(
    v: DcpView,
    id: Seq<char>,
    bucket: Seq<char>,
    scope: Seq<char>,
    collection: Seq<char>,
    vbucket_id: u16,
)
    requires
        v.streams.contains_key(id),
        v.streams[id].active,
    ensures
        v.switched(id, false).published(bucket, scope, collection, vbucket_id).streams[id]
            == v.switched(id, false).streams[id],
        v.switched(id, false).switched(id, true) == v,
{
    assert(v.switched(id, false).switched(id, true).streams =~= v.streams);
}

/// A mutation, a deletion or an expiration moves the cursor of a stream exactly when the stream is
/// active and about it, and then to the event's sequence number.
pub proof fn law_streams_follow_their_filters(
    v: DcpView,
    id: Seq<char>,
    bucket: Seq<char>,
    scope: Seq<char>,
    collection: Seq<char>,
    vbucket_id: u16,
)
    requires
        v.streams.contains_key(id),
        v.streams[id].events_streamed < v.global_seq,
        v.global_seq < u64::MAX,
    ensures
        ({
            let after = v.published(bucket, scope, collection, vbucket_id).streams[id];
            let takes = v.streams[id].active && v.streams[id].is_about(bucket, scope, collection);
            &&& takes == (after.events_streamed == v.streams[id].events_streamed + 1)
            &&& takes ==> after.cursors[vbucket_id] == v.global_seq
            &&& !takes ==> after == v.streams[id]
        }),
{
}

/// An event says what happened, to which key in which place, with the value and the numbers that
/// were given. Only a mutation has a value and an expiry, and it is marked as JSON where it has a
/// value.
pub proof fn law_events_say_what_happened(
    kind: DcpEventType,
    seq: u64,
    bucket: Seq<char>,
    scope: Seq<char>,
    collection: Seq<char>,
    key: Seq<char>,
    value: Option<Seq<char>>,
    cas: u64,
    vbucket_id: u16,
    expiry: u32,
    now: i128,
)
    ensures
        ({
            let m = mutation_event(
                seq,
                bucket,
                scope,
                collection,
                key,
                value,
                cas,
                vbucket_id,
                expiry,
                now,
            );
            let d = removal_event(kind, seq, bucket, scope, collection, key, cas, vbucket_id, now);
            &&& m.event_type == DcpEventType::Mutation && d.event_type == kind
            &&& m.value == value && d.value is None
            &&& m.expiry == expiry && d.expiry == 0
            &&& (m.datatype == 1 <==> value is Some) && d.datatype == 0
            &&& m.key == key && d.key == key
            &&& m.cas == cas && d.cas == cas
            &&& m.seq_no == seq && d.seq_no == seq
            &&& m.vbucket_id == vbucket_id && d.vbucket_id == vbucket_id
            &&& m.bucket == bucket && d.bucket == bucket
            &&& m.scope == scope && d.scope == scope
            &&& m.collection == collection && d.collection == collection
            &&& m.timestamp == d.timestamp && m.timestamp == rfc3339_of(now)
        }),
{
}

/// A stream is about the changes of its bucket that its filters let through: without a filter all
/// scopes or collections, with one that one alone.
pub proof fn law_filters_choose_by_name(
    s: StreamView,
    bucket: Seq<char>,
    scope: Seq<char>,
    collection: Seq<char>,
)
    ensures
        s.is_about(bucket, scope, collection) ==> s.bucket == bucket,
        s.scope_filter is Some && s.is_about(bucket, scope, collection) ==> s.scope_filter->0
            == scope,
        s.collection_filter is Some && s.is_about(bucket, scope, collection)
            ==> s.collection_filter->0 == collection,
        s.bucket == bucket && s.scope_filter is None && s.collection_filter is None ==> s.is_about(
            bucket,
            scope,
            collection,
        ),
        s.bucket == bucket && s.scope_filter == Some(scope) && s.collection_filter is None
            ==> s.is_about(bucket, scope, collection),
        s.bucket == bucket && s.scope_filter is None && s.collection_filter == Some(collection)
            ==> s.is_about(bucket, scope, collection),
        s.bucket == bucket && s.scope_filter == Some(scope) && s.collection_filter == Some(
            collection,
        ) ==> s.is_about(bucket, scope, collection),
{
}

/// A change moves the streams that are active and choose its bucket, scope and collection: one event
/// more, and the cursor of the vBucket at the number of the event, other cursors as they were. No
/// other stream changes, none comes or goes, and the next event gets the next number.
pub proof fn law_changes_move_their_streams(
    v: DcpView,
    id: Seq<char>,
    bucket: Seq<char>,
    scope: Seq<char>,
    collection: Seq<char>,
    vbucket_id: u16,
    other: u16,
)
    requires
        v.streams.contains_key(id),
        v.streams[id].events_streamed < u64::MAX,
        v.global_seq < u64::MAX,
    ensures
        ({
            let s = v.streams[id];
            let after = v.published(bucket, scope, collection, vbucket_id);
            let t = after.streams[id];
            let chosen = s.active && s.bucket == bucket && (s.scope_filter is None
                || s.scope_filter->0 == scope) && (s.collection_filter is None
                || s.collection_filter->0 == collection);
            &&& after.global_seq == v.global_seq + 1
            &&& after.streams.dom() == v.streams.dom()
            &&& !chosen ==> t == s
            &&& chosen ==> t.events_streamed == s.events_streamed + 1
            &&& chosen ==> t.cursors.contains_key(vbucket_id) && t.cursors[vbucket_id]
                == v.global_seq
            &&& other != vbucket_id ==> t.cursors.contains_key(other) == s.cursors.contains_key(
                other,
            ) && (s.cursors.contains_key(other) ==> t.cursors[other] == s.cursors[other])
            &&& t == (StreamView {
                events_streamed: t.events_streamed,
                cursors: t.cursors,
                ..s
            })
        }),
{
    let after = v.published(bucket, scope, collection, vbucket_id);
    assert(after.streams.dom() =~= v.streams.dom());
}

/// Pausing and resuming concern one stream and its activity alone.
pub proof fn law_switching_concerns_one_stream(
    v: DcpView,
    id: Seq<char>,
    other: Seq<char>,
    active: bool,
)
    requires
        v.streams.contains_key(id),
        v.streams.contains_key(other),
    ensures
        v.switched(id, active).streams[id].active == active,
        v.switched(id, active).streams[id] == (StreamView {
            active,
            ..v.streams[id]
        }),
        other != id ==> v.switched(id, active).streams[other] == v.streams[other],
        v.switched(id, active).streams.dom() == v.streams.dom(),
        v.switched(id, active).global_seq == v.global_seq,
{
    assert(v.switched(id, active).streams.dom() =~= v.streams.dom());
}

/// A new stream is active, has streamed nothing, and has the name, the bucket and the filters that
/// were asked for.
pub proof fn law_new_streams_are_as_asked(req: CreateStreamRequest, id: Seq<char>, now: i128)
    ensures
        ({
            let s = new_stream(req, id, now);
            &&& s.id == id
            &&& s.name == req.name@
            &&& s.bucket == req.bucket@
            &&& s.active
            &&& s.events_streamed == 0
            &&& forall|vb: u16| !#[trigger] s.cursors.contains_key(vb)
            &&& s.scope_filter is Some <==> req.scope_filter is Some
            &&& s.collection_filter is Some <==> req.collection_filter is Some
            &&& req.scope_filter is Some ==> s.scope_filter->0 == req.scope_filter->0@
            &&& req.collection_filter is Some ==> s.collection_filter->0
                == req.collection_filter->0@
        }),
{
}

/// A backfill gives every document that is not deleted, once and in order, as a mutation with its
/// key, value and CAS, under consecutive sequence numbers from the next one on.
pub proof fn law_backfill_gives_the_live_documents(
    docs: Seq<Document>,
    start: u64,
    bucket: Seq<char>,
    scope: Seq<char>,
    collection: Seq<char>,
    now: i128,
    k: int,
)
    requires
        0 <= k <= docs.len(),
        start + k <= u64::MAX,
    ensures
        ({
            let live = docs.take(k).filter(|d: Document| !d.deleted);
            let events = backfill_events(docs, start, bucket, scope, collection, now, k);
            &&& events.len() == live.len()
            &&& events.len() <= k
            &&& forall|i: int|
                0 <= i < events.len() ==> {
                    let e = #[trigger] events[i];
                    &&& e.event_type == DcpEventType::Mutation
                    &&& e.key == live[i].key@
                    &&& e.value == Some(live[i].value@)
                    &&& e.cas == live[i].cas
                    &&& e.vbucket_id == live[i].vbucket_id
                    &&& e.seq_no == start + i
                    &&& e.bucket == bucket
                    &&& e.scope == scope
                    &&& e.collection == collection
                    &&& e.timestamp == rfc3339_of(live[i].updated_at)
                    &&& e.expiry == remaining_seconds(live[i].expiry, now)
                    &&& e.datatype == 1
                }
        }),
    decreases k,
{
    reveal(Seq::filter);
    if k > 0 {
        law_backfill_gives_the_live_documents(docs, start, bucket, scope, collection, now, k - 1);
        assert(docs.take(k).drop_last() =~= docs.take(k - 1));
    }
}

/// A stream is known by a prefix and the sixteen hexadecimal digits of a number; a name that is not
/// given is that of the default.
pub proof fn law_streams_have_their_names(h: u64, name: &str, id: Seq<char>)
    ensures
        stream_id_of(h) == "dcp-"@ + hex_of(be_bytes(h as nat, 8)),
        stream_id_of(h).len() == 20,
        name_or_default(Some(name)) == name@,
        name_or_default(None) == "_default"@,
        no_stream(id) == "Stream '"@ + (id + "' not found"@),
{
    reveal_strlit("dcp-");
    lemma_be_bytes_len(h as nat, 8);
    lemma_hex_chars(be_bytes(h as nat, 8));
    assert(no_stream(id) =~= "Stream '"@ + (id + "' not found"@));
}

} // verus!
