//! The key-value operations of the binary protocol: what a request asks of the bucket that the
//! connection has selected, and how the bucket's answer is put into a response.

use crate::be_bytes::{
    be_bytes, be_value, copy_bytes, lemma_be_round_trip, lemma_be_small, lemma_fits, push_be, read_u32,
    read_u64,
};
use crate::clock::{low_seconds, seconds32};
use crate::document::Document;
use crate::error::NosqlError;
use crate::json_text::{
    json_normal, json_quoted, lossy_text, normalise_json, push_json_quoted, text_from_utf8_lossy,
};
use crate::memcached::protocol::{Request, Response, ResponseView, Status};
use vstd::prelude::*;
use vstd::string::*;
use vstd::utf8::encode_utf8;

verus! {

/// The bit of a sub-document specification that asks for an extended attribute.
pub const SUBDOC_FLAG_XATTR: u8 = 0x04;

/// The longest expiry that counts from now; longer ones are Unix times.
pub const MAX_RELATIVE_EXPIRY: u32 = 2_592_000;

/// The kinds of key-value operations.
#[derive(Debug, Clone, Copy, PartialEq, Eq, Structural)]
pub enum KvKind {
    Get,
    Upsert,
    Add,
    Replace,
    Delete,
    Touch,
    Increment,
    Decrement,
    Append,
    Prepend,
    Exists,
    GetLocked,
    Unlock,
    GetAndTouch,
    GetMeta,
}

/// An operation on the default collection of a bucket. Values are JSON texts.
#[derive(Debug)]
pub enum StorageOp {
    Get { key: String },
    Upsert { key: String, value: String, expiry: Option<u64> },
    Replace { key: String, value: String, cas: Option<u64> },
    Delete { key: String, cas: Option<u64> },
    Touch { key: String, expiry: u64 },
    Counter { key: String, delta: i64, initial: u64, expiry: Option<u64>, create: bool },
    Append { key: String, value: Vec<u8>, cas: Option<u64> },
    Prepend { key: String, value: Vec<u8>, cas: Option<u64> },
    Exists { key: String },
    GetAndLock { key: String, seconds: u32 },
    Unlock { key: String, cas: u64 },
}

/// What a [`StorageOp`] stands for.
pub enum OpView {
    Get { key: Seq<char> },
    Upsert { key: Seq<char>, value: Seq<char>, expiry: Option<u64> },
    Replace { key: Seq<char>, value: Seq<char>, cas: Option<u64> },
    Delete { key: Seq<char>, cas: Option<u64> },
    Touch { key: Seq<char>, expiry: u64 },
    Counter { key: Seq<char>, delta: i64, initial: u64, expiry: Option<u64>, create: bool },
    Append { key: Seq<char>, value: Seq<u8>, cas: Option<u64> },
    Prepend { key: Seq<char>, value: Seq<u8>, cas: Option<u64> },
    Exists { key: Seq<char> },
    GetAndLock { key: Seq<char>, seconds: u32 },
    Unlock { key: Seq<char>, cas: u64 },
}

impl View for StorageOp {
    type V = OpView;

    open spec fn view(&self) -> OpView {
        match *self {
            StorageOp::Get { key } => OpView::Get { key: key@ },
            StorageOp::Upsert { key, value, expiry } => OpView::Upsert {
                key: key@,
                value: value@,
                expiry,
            },
            StorageOp::Replace { key, value, cas } => OpView::Replace {
                key: key@,
                value: value@,
                cas,
            },
            StorageOp::Delete { key, cas } => OpView::Delete { key: key@, cas },
            StorageOp::Touch { key, expiry } => OpView::Touch { key: key@, expiry },
            StorageOp::Counter { key, delta, initial, expiry, create } => OpView::Counter {
                key: key@,
                delta,
                initial,
                expiry,
                create,
            },
            StorageOp::Append { key, value, cas } => OpView::Append { key: key@, value: value@, cas },
            StorageOp::Prepend { key, value, cas } => OpView::Prepend {
                key: key@,
                value: value@,
                cas,
            },
            StorageOp::Exists { key } => OpView::Exists { key: key@ },
            StorageOp::GetAndLock { key, seconds } => OpView::GetAndLock { key: key@, seconds },
            StorageOp::Unlock { key, cas } => OpView::Unlock { key: key@, cas },
        }
    }
}

/// What became of an operation on a bucket.
#[derive(Debug)]
pub enum Outcome<T> {
    /// There is no such bucket.
    NoBucket,
    Done(T),
    Failed(NosqlError),
}

/// A document that was found, and whether it has expired.
#[derive(Debug)]
pub struct Found {
    pub doc: Document,
    pub expired: bool,
}

impl Found {
    /// Whether the document is neither deleted nor expired.
    pub open spec fn live(self) -> bool {
        !self.doc.deleted && !self.expired
    }
}

// ---- What requests ask for ----

/// The JSON text of the value that bytes stand for: their own where they are JSON, else a JSON
/// string.
pub open spec fn stored_value(bytes: Seq<u8>) -> Seq<char> {
    match json_normal(bytes) {
        Some(text) => text,
        None => json_quoted(lossy_text(bytes)),
    }
}

/// The JSON text of the value that bytes stand for.
fn value_text(bytes: &Vec<u8>) -> (r: String)
    ensures
        r@ == stored_value(bytes@),
{
    match normalise_json(bytes.as_slice()) {
        Some(text) => text,
        None => {
            let text = text_from_utf8_lossy(bytes.as_slice());
            let mut out = String::new();
            push_json_quoted(&mut out, text.as_str());
            assert(out@ =~= json_quoted(text@));
            out
        },
    }
}

/// The expiry of a write, in seconds from now: none for zero; a large number is a Unix time.
pub open spec fn relative_expiry(secs: u32, now: u32) -> Option<u64> {
    if secs == 0 {
        None
    } else if secs > MAX_RELATIVE_EXPIRY {
        Some(
            if secs > now {
                (secs - now) as u64
            } else {
                0
            },
        )
    } else {
        Some(secs as u64)
    }
}

/// The expiry of a write, in seconds from now.
pub fn expiry_from_now(secs: u32, now: u32) -> (r: Option<u64>)
    ensures
        r == relative_expiry(secs, now),
{
    if secs == 0 {
        None
    } else if secs > MAX_RELATIVE_EXPIRY {
        if secs > now {
            Some((secs - now) as u64)
        } else {
            Some(0)
        }
    } else {
        Some(secs as u64)
    }
}

/// The CAS that a request asks for, if it asks for one.
pub open spec fn wanted_cas(req: Request) -> Option<u64> {
    if req.header.cas != 0 {
        Some(req.header.cas)
    } else {
        None
    }
}

fn cas_of(req: &Request) -> (r: Option<u64>)
    ensures
        r == wanted_cas(*req),
{
    if req.header.cas != 0 {
        Some(req.header.cas)
    } else {
        None
    }
}

/// The first four bytes of the extras as a number.
pub open spec fn extras_u32(req: Request, default: u32) -> u32 {
    if req.extras@.len() >= 4 {
        be_value(req.extras@.subrange(0, 4)) as u32
    } else {
        default
    }
}

fn extras_number(req: &Request, default: u32) -> (r: u32)
    ensures
        r == extras_u32(*req, default),
{
    if req.extras.len() >= 4 {
        read_u32(req.extras.as_slice(), 0)
    } else {
        default
    }
}

/// The delta of a counter operation, as it stands in the request.
pub open spec fn counter_delta(req: Request) -> int {
    be_value(req.extras@.subrange(0, 8)) as int
}

/// A number of sixty-four bits, read as a signed one.
pub open spec fn as_signed(n: int) -> int {
    if n >= 0x8000_0000_0000_0000 {
        n - 0x1_0000_0000_0000_0000
    } else {
        n
    }
}

fn signed(n: u64) -> (r: i64)
    ensures
        r == as_signed(n as int),
{
    if n >= 0x8000_0000_0000_0000 {
        (n as i128 - 0x1_0000_0000_0000_0000) as i64
    } else {
        n as i64
    }
}

/// The counter operation that a request asks for.
pub open spec fn counter_op(req: Request, negative: bool) -> OpView {
    let secs = be_value(req.extras@.subrange(16, 20)) as u32;
    let delta = as_signed(counter_delta(req));
    OpView::Counter {
        key: req.key_text(),
        delta: (if negative {
            -delta
        } else {
            delta
        }) as i64,
        initial: be_value(req.extras@.subrange(8, 16)) as u64,
        expiry: if secs > 0 {
            Some(secs as u64)
        } else {
            None
        },
        create: secs != 0xFFFF_FFFF,
    }
}

/// Whether a request is turned down before the bucket is asked, and with which message.
pub open spec fn refusal(kind: KvKind, req: Request) -> Option<Seq<char>> {
    if kind != KvKind::GetAndTouch && req.key_text().len() == 0 {
        Some("Empty key"@)
    } else if (kind == KvKind::Increment || kind == KvKind::Decrement) && req.extras@.len() < 20 {
        Some("Invalid extras"@)
    } else {
        None
    }
}

/// The operation that a request asks of the bucket, at a given time. An ADD looks the
/// key up first.
pub open spec fn planned(kind: KvKind, req: Request, now: int) -> OpView {
    let key = req.key_text();
    let value = stored_value(req.value@);
    let expiry = relative_expiry(req.flags_and_expiry().1, low_seconds(now));
    match kind {
        KvKind::Get => OpView::Get { key },
        KvKind::Upsert => if req.header.cas != 0 {
            OpView::Replace { key, value, cas: wanted_cas(req) }
        } else {
            OpView::Upsert { key, value, expiry }
        },
        KvKind::Add => OpView::Upsert { key, value, expiry },
        KvKind::Replace => OpView::Replace { key, value, cas: wanted_cas(req) },
        KvKind::Delete => OpView::Delete { key, cas: wanted_cas(req) },
        KvKind::Touch => OpView::Touch { key, expiry: extras_u32(req, 0) as u64 },
        KvKind::Increment => counter_op(req, false),
        KvKind::Decrement => counter_op(req, true),
        KvKind::Append => OpView::Append { key, value: req.value@, cas: wanted_cas(req) },
        KvKind::Prepend => OpView::Prepend { key, value: req.value@, cas: wanted_cas(req) },
        KvKind::Exists => OpView::Exists { key },
        KvKind::GetLocked => OpView::GetAndLock { key, seconds: extras_u32(req, 15) },
        KvKind::Unlock => OpView::Unlock { key, cas: req.header.cas },
        KvKind::GetAndTouch => OpView::Touch { key, expiry: extras_u32(req, 0) as u64 },
        KvKind::GetMeta => OpView::Get { key },
    }
}

/// What a write does besides changing the document.
#[derive(Debug, Clone, Copy, PartialEq, Eq, Structural)]
pub struct WriteEffects {
    /// Flags to store with the document.
    pub flags: Option<u32>,
    /// Whether the change goes into the log.
    pub buffered: bool,
    /// Whether indexes and change streams learn of a new value.
    pub announce_upsert: bool,
    /// Whether indexes and change streams learn of a deletion.
    pub announce_delete: bool,
}

/// What a successful operation does besides changing the document.
pub open spec fn effects_of(kind: KvKind, req: Request) -> WriteEffects {
    match kind {
        KvKind::Upsert | KvKind::Add | KvKind::Replace => WriteEffects {
            flags: Some(req.flags_and_expiry().0),
            buffered: true,
            announce_upsert: true,
            announce_delete: false,
        },
        KvKind::Delete => WriteEffects {
            flags: None,
            buffered: true,
            announce_upsert: false,
            announce_delete: true,
        },
        KvKind::Increment | KvKind::Decrement | KvKind::Append | KvKind::Prepend => WriteEffects {
            flags: None,
            buffered: true,
            announce_upsert: false,
            announce_delete: false,
        },
        _ => WriteEffects {
            flags: None,
            buffered: false,
            announce_upsert: false,
            announce_delete: false,
        },
    }
}

// ---- How answers become responses ----

/// An empty response to a request.
pub open spec fn plain_for(req: Request, status: Status) -> ResponseView {
    ResponseView::plain(req.header.opcode, status, req.header.opaque)
}

/// An error response to a request.
pub open spec fn error_for(req: Request, status: Status, msg: Seq<char>) -> ResponseView {
    ResponseView::error(req.header.opcode, status, req.header.opaque, msg)
}

/// A response that bears a document.
pub open spec fn document_for(req: Request, doc: Document) -> ResponseView {
    plain_for(req, Status::Success).cas(doc.cas).with_extras(be_bytes(doc.flags as nat, 4)).with_value(
        encode_utf8(doc.value@),
    ).datatype(1)
}

/// The status that tells of a failure without a message, where there is one.
pub open spec fn failure_status(kind: KvKind, with_cas: bool, e: NosqlError) -> Option<Status> {
    match e {
        NosqlError::DocumentNotFound(_) => match kind {
            KvKind::Upsert => if with_cas {
                Some(Status::KeyNotFound)
            } else {
                None
            },
            KvKind::Add | KvKind::Unlock => None,
            KvKind::Append | KvKind::Prepend => Some(Status::ItemNotStored),
            _ => Some(Status::KeyNotFound),
        },
        NosqlError::CasMismatch { .. } => match kind {
            KvKind::Upsert => if with_cas {
                Some(Status::KeyExists)
            } else {
                None
            },
            KvKind::Replace | KvKind::Delete | KvKind::Append | KvKind::Prepend
            | KvKind::Unlock => Some(Status::KeyExists),
            KvKind::GetAndTouch => Some(Status::KeyNotFound),
            _ => None,
        },
        NosqlError::DocumentLocked(_) => match kind {
            KvKind::GetLocked => Some(Status::Locked),
            KvKind::GetAndTouch => Some(Status::KeyNotFound),
            _ => None,
        },
        _ => match kind {
            KvKind::GetAndTouch => Some(Status::KeyNotFound),
            _ => None,
        },
    }
}

/// The response to a request that the bucket could not carry out.
pub open spec fn failure_for(kind: KvKind, req: Request, e: NosqlError) -> ResponseView {
    match failure_status(kind, req.header.cas != 0, e) {
        Some(status) => plain_for(req, status),
        None => error_for(
            req,
            if kind == KvKind::Unlock {
                Status::TmpFail
            } else {
                Status::InternalError
            },
            e.message(),
        ),
    }
}

/// The response that says that there is no such bucket.
pub open spec fn no_bucket_for(req: Request) -> ResponseView {
    error_for(req, Status::NoBucket, "Bucket not found"@)
}

/// The response to a write that gave a document.
pub open spec fn write_response(kind: KvKind, req: Request, outcome: Outcome<Document>) -> ResponseView {
    match refusal(kind, req) {
        Some(msg) => error_for(req, Status::InvalidArguments, msg),
        None => match outcome {
            Outcome::NoBucket => no_bucket_for(req),
            Outcome::Done(doc) => plain_for(req, Status::Success).cas(doc.cas),
            Outcome::Failed(e) => failure_for(kind, req, e),
        },
    }
}

/// The response to a counter operation that gave a document and the new value.
pub open spec fn counter_response(
    kind: KvKind,
    req: Request,
    outcome: Outcome<(Document, u64)>,
) -> ResponseView {
    match refusal(kind, req) {
        Some(msg) => error_for(req, Status::InvalidArguments, msg),
        None => match outcome {
            Outcome::NoBucket => no_bucket_for(req),
            Outcome::Done((doc, value)) => plain_for(req, Status::Success).cas(doc.cas).with_value(
                be_bytes(value as nat, 8),
            ),
            Outcome::Failed(e) => failure_for(kind, req, e),
        },
    }
}

/// The response to a lookup.
pub open spec fn get_response(req: Request, return_key: bool, outcome: Outcome<Found>) -> ResponseView {
    match refusal(KvKind::Get, req) {
        Some(msg) => error_for(req, Status::InvalidArguments, msg),
        None => match outcome {
            Outcome::NoBucket => no_bucket_for(req),
            Outcome::Done(found) => if !found.live() {
                plain_for(req, Status::KeyNotFound)
            } else if return_key {
                document_for(req, found.doc).with_key(req.key@)
            } else {
                document_for(req, found.doc)
            },
            Outcome::Failed(e) => failure_for(KvKind::Get, req, e),
        },
    }
}

/// The seconds of an expiry as metadata report it.
pub open spec fn expiry_stamp(expiry: Option<i128>) -> u32 {
    match expiry {
        Some(e) => low_seconds(e as int),
        None => 0,
    }
}

/// The metadata of a document: not deleted, flags, expiry, sequence number, JSON.
pub open spec fn meta_extras(doc: Document) -> Seq<u8> {
    be_bytes(0, 4) + be_bytes(doc.flags as nat, 4) + be_bytes(expiry_stamp(doc.expiry) as nat, 4)
        + be_bytes(doc.seq_no as nat, 8) + seq![1u8]
}

/// The response to a request for metadata.
pub open spec fn meta_response(req: Request, outcome: Outcome<Found>) -> ResponseView {
    match refusal(KvKind::GetMeta, req) {
        Some(msg) => error_for(req, Status::InvalidArguments, msg),
        None => match outcome {
            Outcome::NoBucket => no_bucket_for(req),
            Outcome::Done(found) => if !found.live() {
                plain_for(req, Status::KeyNotFound)
            } else {
                plain_for(req, Status::Success).cas(found.doc.cas).with_extras(
                    meta_extras(found.doc),
                )
            },
            Outcome::Failed(e) => failure_for(KvKind::GetMeta, req, e),
        },
    }
}

/// The key-value operations.
pub struct KvHandler {}

impl KvHandler {
    pub fn new() -> (r: Self)
        ensures
            r == (KvHandler {  }),
    {
        KvHandler {  }
    }

    /// What a request asks of the bucket, at a given time; nothing where the request is
    /// turned down at once. The smallest negative delta of a DECREMENT has no positive
    /// counterpart and is not taken.
    pub fn plan(&self, kind: KvKind, req: &Request, now: i128) -> (r: Option<StorageOp>)
        requires
            kind == KvKind::Decrement && req.extras@.len() >= 20 ==> counter_delta(*req)
                != 0x8000_0000_0000_0000,
        ensures
            match r {
                Some(op) => refusal(kind, *req) is None && op@ == planned(
                    kind,
                    *req,
                    now as int,
                ),
                None => refusal(kind, *req) is Some,
            },
    {
        let key = req.key_str();
        if kind != KvKind::GetAndTouch && key.as_str().is_empty() {
            return None;
        }
        Some(
            match kind {
                KvKind::Get => StorageOp::Get { key },
                KvKind::Upsert => {
                    let value = value_text(&req.value);
                    if req.header.cas != 0 {
                        StorageOp::Replace { key, value, cas: cas_of(req) }
                    } else {
                        let expiry = expiry_from_now(req.mutation_extras().1, seconds32(now));
                        StorageOp::Upsert { key, value, expiry }
                    }
                },
                KvKind::Add => {
                    let value = value_text(&req.value);
                    let expiry = expiry_from_now(req.mutation_extras().1, seconds32(now));
                    StorageOp::Upsert { key, value, expiry }
                },
                KvKind::Replace => {
                    let value = value_text(&req.value);
                    StorageOp::Replace { key, value, cas: cas_of(req) }
                },
                KvKind::Delete => StorageOp::Delete { key, cas: cas_of(req) },
                KvKind::Touch | KvKind::GetAndTouch => StorageOp::Touch {
                    key,
                    expiry: extras_number(req, 0) as u64,
                },
                KvKind::Increment | KvKind::Decrement => {
                    if req.extras.len() < 20 {
                        return None;
                    }
                    let raw: u64 = read_u64(req.extras.as_slice(), 0);
                    let secs: u32 = read_u32(req.extras.as_slice(), 16);
                    let delta: i64 = if kind == KvKind::Decrement {
                        -signed(raw)
                    } else {
                        signed(raw)
                    };
                    StorageOp::Counter {
                        key,
                        delta,
                        initial: read_u64(req.extras.as_slice(), 8),
                        expiry: if secs > 0 {
                            Some(secs as u64)
                        } else {
                            None
                        },
                        create: secs != 0xFFFF_FFFF,
                    }
                },
                KvKind::Append => StorageOp::Append {
                    key,
                    value: copy_bytes(&req.value),
                    cas: cas_of(req),
                },
                KvKind::Prepend => StorageOp::Prepend {
                    key,
                    value: copy_bytes(&req.value),
                    cas: cas_of(req),
                },
                KvKind::Exists => StorageOp::Exists { key },
                KvKind::GetLocked => StorageOp::GetAndLock { key, seconds: extras_number(req, 15) },
                KvKind::Unlock => StorageOp::Unlock { key, cas: req.header.cas },
                KvKind::GetMeta => StorageOp::Get { key },
            },
        )
    }

    /// What a successful operation does besides changing the document.
    pub fn effects(&self, kind: KvKind, req: &Request) -> (r: WriteEffects)
        ensures
            r == effects_of(kind, *req),
    {
        match kind {
            KvKind::Upsert | KvKind::Add | KvKind::Replace => WriteEffects {
                flags: Some(req.mutation_extras().0),
                buffered: true,
                announce_upsert: true,
                announce_delete: false,
            },
            KvKind::Delete => WriteEffects {
                flags: None,
                buffered: true,
                announce_upsert: false,
                announce_delete: true,
            },
            KvKind::Increment | KvKind::Decrement | KvKind::Append | KvKind::Prepend => WriteEffects {
                flags: None,
                buffered: true,
                announce_upsert: false,
                announce_delete: false,
            },
            _ => WriteEffects {
                flags: None,
                buffered: false,
                announce_upsert: false,
                announce_delete: false,
            },
        }
    }

    fn plain(&self, req: &Request, status: Status) -> (r: Response)
        ensures
            r@ == plain_for(*req, status),
    {
        Response::new(req.header.opcode, status, req.header.opaque)
    }

    fn error(&self, req: &Request, status: Status, msg: &str) -> (r: Response)
        ensures
            r@ == error_for(*req, status, msg@),
    {
        Response::error(req.header.opcode, status, req.header.opaque, msg)
    }

    fn no_bucket(&self, req: &Request) -> (r: Response)
        ensures
            r@ == no_bucket_for(*req),
    {
        self.error(req, Status::NoBucket, "Bucket not found")
    }

    /// The response that turns a request down at once, if it is turned down.
    fn refuse(&self, kind: KvKind, req: &Request) -> (r: Option<Response>)
        ensures
            match r {
                Some(resp) => refusal(kind, *req) is Some && resp@ == error_for(
                    *req,
                    Status::InvalidArguments,
                    refusal(kind, *req)->0,
                ),
                None => refusal(kind, *req) is None,
            },
    {
        if kind != KvKind::GetAndTouch && req.key_str().as_str().is_empty() {
            return Some(self.error(req, Status::InvalidArguments, "Empty key"));
        }
        if (kind == KvKind::Increment || kind == KvKind::Decrement) && req.extras.len() < 20 {
            return Some(self.error(req, Status::InvalidArguments, "Invalid extras"));
        }
        None
    }

    /// The response to an operation that failed.
    fn failure(&self, kind: KvKind, req: &Request, e: &NosqlError) -> (r: Response)
        ensures
            r@ == failure_for(kind, *req, *e),
    {
        let with_cas = req.header.cas != 0;
        let status: Option<Status> = match e {
            NosqlError::DocumentNotFound(_) => match kind {
                KvKind::Upsert => if with_cas {
                    Some(Status::KeyNotFound)
                } else {
                    None
                },
                KvKind::Add | KvKind::Unlock => None,
                KvKind::Append | KvKind::Prepend => Some(Status::ItemNotStored),
                _ => Some(Status::KeyNotFound),
            },
            NosqlError::CasMismatch { .. } => match kind {
                KvKind::Upsert => if with_cas {
                    Some(Status::KeyExists)
                } else {
                    None
                },
                KvKind::Replace | KvKind::Delete | KvKind::Append | KvKind::Prepend
                | KvKind::Unlock => Some(Status::KeyExists),
                KvKind::GetAndTouch => Some(Status::KeyNotFound),
                _ => None,
            },
            NosqlError::DocumentLocked(_) => match kind {
                KvKind::GetLocked => Some(Status::Locked),
                KvKind::GetAndTouch => Some(Status::KeyNotFound),
                _ => None,
            },
            _ => match kind {
                KvKind::GetAndTouch => Some(Status::KeyNotFound),
                _ => None,
            },
        };
        match status {
            Some(s) => self.plain(req, s),
            None => {
                let s = if kind == KvKind::Unlock {
                    Status::TmpFail
                } else {
                    Status::InternalError
                };
                self.error(req, s, e.to_text().as_str())
            },
        }
    }

    /// A response that bears a document.
    fn document(&self, req: &Request, doc: &Document) -> (r: Response)
        ensures
            r@ == document_for(*req, *doc),
    {
        let mut extras: Vec<u8> = Vec::new();
        push_be(&mut extras, doc.flags as u64, 4);
        assert(extras@ =~= be_bytes(doc.flags as nat, 4));
        self.plain(req, Status::Success).with_cas(doc.cas).with_extras(extras).with_value(
            doc.value.as_str().as_bytes_vec(),
        ).with_datatype(1)
    }

    /// The response to a write that gave a document.
    fn write_done(&self, kind: KvKind, req: &Request, outcome: &Outcome<Document>) -> (r: Response)
        ensures
            r@ == write_response(kind, *req, *outcome),
    {
        match self.refuse(kind, req) {
            Some(resp) => resp,
            None => match outcome {
                Outcome::NoBucket => self.no_bucket(req),
                Outcome::Done(doc) => self.plain(req, Status::Success).with_cas(doc.cas),
                Outcome::Failed(e) => self.failure(kind, req, e),
            },
        }
    }

    fn counter_done(&self, kind: KvKind, req: &Request, outcome: &Outcome<(Document, u64)>) -> (r:
        Response)
        ensures
            r@ == counter_response(kind, *req, *outcome),
    {
        match self.refuse(kind, req) {
            Some(resp) => resp,
            None => match outcome {
                Outcome::NoBucket => self.no_bucket(req),
                Outcome::Done(done) => {
                    let mut value: Vec<u8> = Vec::new();
                    push_be(&mut value, done.1, 8);
                    assert(value@ =~= be_bytes(done.1 as nat, 8));
                    self.plain(req, Status::Success).with_cas(done.0.cas).with_value(value)
                },
                Outcome::Failed(e) => self.failure(kind, req, e),
            },
        }
    }

    /// The response to a GET or GETK.
    pub fn handle_get(&self, req: &Request, return_key: bool, outcome: &Outcome<Found>) -> (r:
        Response)
        ensures
            r@ == get_response(*req, return_key, *outcome),
    {
        match self.refuse(KvKind::Get, req) {
            Some(resp) => resp,
            None => match outcome {
                Outcome::NoBucket => self.no_bucket(req),
                Outcome::Done(found) => if found.doc.deleted || found.expired {
                    self.plain(req, Status::KeyNotFound)
                } else if return_key {
                    self.document(req, &found.doc).with_key(copy_bytes(&req.key))
                } else {
                    self.document(req, &found.doc)
                },
                Outcome::Failed(e) => self.failure(KvKind::Get, req, e),
            },
        }
    }

    /// The response to a SET.
    pub fn handle_set(&self, req: &Request, outcome: &Outcome<Document>) -> (r: Response)
        ensures
            r@ == write_response(KvKind::Upsert, *req, *outcome),
    {
        self.write_done(KvKind::Upsert, req, outcome)
    }

    /// Whether an ADD goes no further because a live document was found.
    pub fn add_is_blocked(&self, existing: &Outcome<Found>) -> (r: bool)
        ensures
            r == match *existing {
                Outcome::Done(found) => found.live(),
                _ => false,
            },
    {
        match existing {
            Outcome::Done(found) => !found.doc.deleted && !found.expired,
            _ => false,
        }
    }

    /// The response to an ADD: `blocked` where a live document was found, else what became of the
    /// write.
    pub fn handle_add(&self, req: &Request, blocked: bool, outcome: &Outcome<Document>) -> (r:
        Response)
        ensures
            r@ == if blocked && refusal(KvKind::Add, *req) is None {
                plain_for(*req, Status::KeyExists)
            } else {
                write_response(KvKind::Add, *req, *outcome)
            },
    {
        if blocked && self.refuse(KvKind::Add, req).is_none() {
            return self.plain(req, Status::KeyExists);
        }
        self.write_done(KvKind::Add, req, outcome)
    }

    /// The response to a REPLACE.
    pub fn handle_replace(&self, req: &Request, outcome: &Outcome<Document>) -> (r: Response)
        ensures
            r@ == write_response(KvKind::Replace, *req, *outcome),
    {
        self.write_done(KvKind::Replace, req, outcome)
    }

    /// The response to a DELETE.
    pub fn handle_delete(&self, req: &Request, outcome: &Outcome<Document>) -> (r: Response)
        ensures
            r@ == write_response(KvKind::Delete, *req, *outcome),
    {
        self.write_done(KvKind::Delete, req, outcome)
    }

    /// The response to a TOUCH.
    pub fn handle_touch(&self, req: &Request, outcome: &Outcome<Document>) -> (r: Response)
        ensures
            r@ == write_response(KvKind::Touch, *req, *outcome),
    {
        self.write_done(KvKind::Touch, req, outcome)
    }

    /// The response to an INCREMENT.
    pub fn handle_increment(&self, req: &Request, outcome: &Outcome<(Document, u64)>) -> (r:
        Response)
        ensures
            r@ == counter_response(KvKind::Increment, *req, *outcome),
    {
        self.counter_done(KvKind::Increment, req, outcome)
    }

    /// The response to a DECREMENT.
    pub fn handle_decrement(&self, req: &Request, outcome: &Outcome<(Document, u64)>) -> (r:
        Response)
        ensures
            r@ == counter_response(KvKind::Decrement, *req, *outcome),
    {
        self.counter_done(KvKind::Decrement, req, outcome)
    }

    /// The response to an APPEND.
    pub fn handle_append(&self, req: &Request, outcome: &Outcome<Document>) -> (r: Response)
        ensures
            r@ == write_response(KvKind::Append, *req, *outcome),
    {
        self.write_done(KvKind::Append, req, outcome)
    }

    /// The response to a PREPEND.
    pub fn handle_prepend(&self, req: &Request, outcome: &Outcome<Document>) -> (r: Response)
        ensures
            r@ == write_response(KvKind::Prepend, *req, *outcome),
    {
        self.write_done(KvKind::Prepend, req, outcome)
    }

    /// The response to a question whether a key exists, which gives its CAS.
    pub fn handle_exists(&self, req: &Request, outcome: &Outcome<u64>) -> (r: Response)
        ensures
            r@ == match refusal(KvKind::Exists, *req) {
                Some(msg) => error_for(*req, Status::InvalidArguments, msg),
                None => match *outcome {
                    Outcome::NoBucket => no_bucket_for(*req),
                    Outcome::Done(cas) => plain_for(*req, Status::Success).cas(cas),
                    Outcome::Failed(e) => failure_for(KvKind::Exists, *req, e),
                },
            },
    {
        match self.refuse(KvKind::Exists, req) {
            Some(resp) => resp,
            None => match outcome {
                Outcome::NoBucket => self.no_bucket(req),
                Outcome::Done(cas) => self.plain(req, Status::Success).with_cas(*cas),
                Outcome::Failed(e) => self.failure(KvKind::Exists, req, e),
            },
        }
    }

    /// The response to a GET_LOCKED.
    pub fn handle_get_locked(&self, req: &Request, outcome: &Outcome<Document>) -> (r: Response)
        ensures
            r@ == match refusal(KvKind::GetLocked, *req) {
                Some(msg) => error_for(*req, Status::InvalidArguments, msg),
                None => match *outcome {
                    Outcome::NoBucket => no_bucket_for(*req),
                    Outcome::Done(doc) => document_for(*req, doc),
                    Outcome::Failed(e) => failure_for(KvKind::GetLocked, *req, e),
                },
            },
    {
        match self.refuse(KvKind::GetLocked, req) {
            Some(resp) => resp,
            None => match outcome {
                Outcome::NoBucket => self.no_bucket(req),
                Outcome::Done(doc) => self.document(req, doc),
                Outcome::Failed(e) => self.failure(KvKind::GetLocked, req, e),
            },
        }
    }

    /// The response to an UNLOCK_KEY.
    pub fn handle_unlock(&self, req: &Request, outcome: &Outcome<()>) -> (r: Response)
        ensures
            r@ == match refusal(KvKind::Unlock, *req) {
                Some(msg) => error_for(*req, Status::InvalidArguments, msg),
                None => match *outcome {
                    Outcome::NoBucket => no_bucket_for(*req),
                    Outcome::Done(_) => plain_for(*req, Status::Success),
                    Outcome::Failed(e) => failure_for(KvKind::Unlock, *req, e),
                },
            },
    {
        match self.refuse(KvKind::Unlock, req) {
            Some(resp) => resp,
            None => match outcome {
                Outcome::NoBucket => self.no_bucket(req),
                Outcome::Done(_) => self.plain(req, Status::Success),
                Outcome::Failed(e) => self.failure(KvKind::Unlock, req, e),
            },
        }
    }

    /// The response to a GET_AND_TOUCH, from the lookup that follows the touch.
    pub fn handle_gat(&self, req: &Request, outcome: &Outcome<Found>) -> (r: Response)
        ensures
            r@ == match *outcome {
                Outcome::NoBucket => no_bucket_for(*req),
                Outcome::Done(found) => if found.live() {
                    document_for(*req, found.doc)
                } else {
                    plain_for(*req, Status::KeyNotFound)
                },
                Outcome::Failed(e) => plain_for(*req, Status::KeyNotFound),
            },
    {
        match outcome {
            Outcome::NoBucket => self.no_bucket(req),
            Outcome::Done(found) => if !found.doc.deleted && !found.expired {
                self.document(req, &found.doc)
            } else {
                self.plain(req, Status::KeyNotFound)
            },
            Outcome::Failed(_) => self.plain(req, Status::KeyNotFound),
        }
    }

    /// The response to a GET_META.
    pub fn handle_get_meta(&self, req: &Request, outcome: &Outcome<Found>) -> (r: Response)
        ensures
            r@ == meta_response(*req, *outcome),
    {
        match self.refuse(KvKind::GetMeta, req) {
            Some(resp) => resp,
            None => match outcome {
                Outcome::NoBucket => self.no_bucket(req),
                Outcome::Done(found) => if found.doc.deleted || found.expired {
                    self.plain(req, Status::KeyNotFound)
                } else {
                    let doc = &found.doc;
                    let stamp: u32 = match doc.expiry {
                        Some(e) => seconds32(e),
                        None => 0,
                    };
                    let mut extras: Vec<u8> = Vec::new();
                    push_be(&mut extras, 0, 4);
                    push_be(&mut extras, doc.flags as u64, 4);
                    push_be(&mut extras, stamp as u64, 4);
                    push_be(&mut extras, doc.seq_no, 8);
                    extras.push(1);
                    assert(extras@ =~= meta_extras(*doc));
                    self.plain(req, Status::Success).with_cas(doc.cas).with_extras(extras)
                },
                Outcome::Failed(e) => self.failure(KvKind::GetMeta, req, e),
            },
        }
    }
}

// ---- Laws ----

/// INCREMENT adds the number in the first eight bytes of the extras and DECREMENT takes it away: the
/// two ask for opposite changes of the same counter. The next eight bytes are where a new counter
/// starts, and the last four its expiry; four bytes of all ones forbid to make a new one.
pub proof fn law_counters_go_both_ways(req: Request, now: int)
    requires
        req.extras@.len() >= 20,
        be_value(req.extras@.subrange(0, 8)) <= i64::MAX,
    ensures
        ({
            let d = be_value(req.extras@.subrange(0, 8));
            let secs = be_value(req.extras@.subrange(16, 20));
            let up = planned(KvKind::Increment, req, now);
            let down = planned(KvKind::Decrement, req, now);
            &&& up is Counter && down is Counter
            &&& up->delta == d
            &&& up->delta + down->delta == 0
            &&& d > 0 ==> down->delta < 0 < up->delta
            &&& up->Counter_key == req.key_text() && down->Counter_key == req.key_text()
            &&& up->initial == be_value(req.extras@.subrange(8, 16))
            &&& down->initial == up->initial
            &&& up->Counter_expiry == down->Counter_expiry
            &&& up->create == down->create
            &&& secs == 0 ==> up->Counter_expiry is None
            &&& secs > 0 ==> up->Counter_expiry == Some(secs as u64)
            &&& up->create <==> secs < 0xFFFF_FFFF
        }),
{
    lemma_be_small(req.extras@.subrange(8, 16));
    lemma_be_small(req.extras@.subrange(16, 20));
}

/// The expiry of a write: none for zero, seconds from now up to thirty days, and beyond that the
/// seconds that are left until a Unix time.
pub proof fn law_long_expiries_are_times(secs: u32, now: u32)
    ensures
        secs == 0 <==> relative_expiry(secs, now) is None,
        0 < secs <= 30 * 24 * 60 * 60 ==> relative_expiry(secs, now)->0 == secs,
        secs > 30 * 24 * 60 * 60 && secs >= now ==> relative_expiry(secs, now)->0 + now == secs,
        secs > 30 * 24 * 60 * 60 && secs < now ==> relative_expiry(secs, now)->0 == 0,
{
}

/// Reads ask for the key and change nothing: GET and GET_META for the document, EXISTS for whether it
/// is there, GET_LOCKED for a lock of as many seconds as the extras say, or fifteen.
pub proof fn law_reads_ask_for_their_key(req: Request, now: int)
    ensures
        planned(KvKind::Get, req, now) == (OpView::Get { key: req.key_text() }),
        planned(KvKind::GetMeta, req, now) == (OpView::Get { key: req.key_text() }),
        planned(KvKind::Exists, req, now) == (OpView::Exists { key: req.key_text() }),
        planned(KvKind::GetLocked, req, now) is GetAndLock,
        planned(KvKind::GetLocked, req, now)->GetAndLock_key == req.key_text(),
        req.extras@.len() < 4 ==> planned(KvKind::GetLocked, req, now)->seconds == 15,
        req.extras@.len() >= 4 ==> planned(KvKind::GetLocked, req, now)->seconds == be_value(
            req.extras@.subrange(0, 4),
        ),
        planned(KvKind::Unlock, req, now) == (OpView::Unlock {
            key: req.key_text(),
            cas: req.header.cas,
        }),
{
    if req.extras@.len() >= 4 {
        lemma_be_small(req.extras@.subrange(0, 4));
    }
}

/// Writes ask for their key, their value and their CAS. A SET with a CAS replaces what has that CAS,
/// one without writes over whatever is there; an ADD never bears a CAS; REPLACE, DELETE, APPEND and
/// PREPEND bear it exactly where the request has one.
pub proof fn law_writes_ask_for_their_change(req: Request, now: int)
    ensures
        ({
            let key = req.key_text();
            let value = stored_value(req.value@);
            let cas = req.header.cas;
            let set = planned(KvKind::Upsert, req, now);
            let add = planned(KvKind::Add, req, now);
            let replace = planned(KvKind::Replace, req, now);
            let delete = planned(KvKind::Delete, req, now);
            let append = planned(KvKind::Append, req, now);
            let prepend = planned(KvKind::Prepend, req, now);
            &&& cas == 0 ==> set is Upsert && set->Upsert_key == key && set->Upsert_value == value
                && set == add
            &&& cas != 0 ==> set is Replace && set->Replace_key == key && set->Replace_value
                == value && set->Replace_cas == Some(cas) && set == replace
            &&& add is Upsert && add->Upsert_key == key && add->Upsert_value == value
            &&& add->Upsert_expiry == relative_expiry(req.flags_and_expiry().1, low_seconds(now))
            &&& replace is Replace && replace->Replace_key == key && replace->Replace_value == value
            &&& delete is Delete && delete->Delete_key == key
            &&& append is Append && append->Append_key == key && append->Append_value == req.value@
            &&& prepend is Prepend && prepend->Prepend_key == key && prepend->Prepend_value
                == req.value@
            &&& cas == 0 ==> replace->Replace_cas is None && delete->Delete_cas is None
                && append->Append_cas is None && prepend->Prepend_cas is None
            &&& cas != 0 ==> replace->Replace_cas == Some(cas) && delete->Delete_cas == Some(cas)
                && append->Append_cas == Some(cas) && prepend->Prepend_cas == Some(cas)
        }),
{
}

/// TOUCH and GET_AND_TOUCH ask for the expiry in the first four bytes of the extras, or for none.
pub proof fn law_touches_ask_for_an_expiry(req: Request, now: int)
    ensures
        planned(KvKind::Touch, req, now) == planned(KvKind::GetAndTouch, req, now),
        planned(KvKind::Touch, req, now) is Touch,
        planned(KvKind::Touch, req, now)->Touch_key == req.key_text(),
        req.extras@.len() < 4 ==> planned(KvKind::Touch, req, now)->Touch_expiry == 0,
        req.extras@.len() >= 4 ==> planned(KvKind::Touch, req, now)->Touch_expiry == be_value(
            req.extras@.subrange(0, 4),
        ),
{
    if req.extras@.len() >= 4 {
        lemma_be_small(req.extras@.subrange(0, 4));
    }
}

/// A value that is JSON is stored as it is, any other as a JSON string of its text.
pub proof fn law_values_are_stored_as_json(bytes: Seq<u8>)
    ensures
        json_normal(bytes) is Some ==> stored_value(bytes) == json_normal(bytes)->0,
        json_normal(bytes) is None ==> stored_value(bytes) == json_quoted(lossy_text(bytes)),
{
}

/// A request is turned down exactly where its key is empty, but for GET_AND_TOUCH, or where the
/// extras of a counter are too short.
pub proof fn law_only_broken_requests_are_turned_down(kind: KvKind, req: Request)
    ensures
        refusal(kind, req) is Some <==> (kind != KvKind::GetAndTouch && req.key_text() == ""@) || ((
        kind == KvKind::Increment || kind == KvKind::Decrement) && req.extras@.len() < 20),
{
    reveal_strlit("");
    if req.key_text().len() == 0 {
        assert(req.key_text() =~= ""@);
    }
}

/// Whether a response answers a request with a status: with its opcode and its opaque number.
pub open spec fn answers(r: ResponseView, req: Request, status: Status) -> bool {
    &&& r.header.magic == 0x81
    &&& r.header.opcode == req.header.opcode
    &&& r.header.opaque == req.header.opaque
    &&& r.header.vbucket_or_status == status.code()
}

/// A write that was carried out is answered with success and the new CAS; a counter also with its
/// new value in eight bytes. Nothing else is in the response.
pub proof fn law_successful_writes_give_the_cas(
    kind: KvKind,
    req: Request,
    doc: Document,
    value: u64,
)
    requires
        refusal(kind, req) is None,
    ensures
        ({
            let w = write_response(kind, req, Outcome::Done(doc));
            let c = counter_response(kind, req, Outcome::Done((doc, value)));
            &&& answers(w, req, Status::Success) && answers(c, req, Status::Success)
            &&& w.header.cas == doc.cas && c.header.cas == doc.cas
            &&& w.extras.len() == 0 && w.key.len() == 0 && w.value.len() == 0
            &&& c.extras.len() == 0 && c.key.len() == 0 && c.value.len() == 8
            &&& be_value(c.value) == value
        }),
{
    lemma_fits(0, 0, 0, value);
    lemma_be_round_trip(value as nat, 8);
}

/// A lookup that finds a live document is answered with its value, its CAS and its flags, and with
/// the key where that was asked for; what is deleted or expired is not found.
pub proof fn law_lookups_give_live_documents(req: Request, return_key: bool, found: Found)
    requires
        refusal(KvKind::Get, req) is None,
    ensures
        ({
            let r = get_response(req, return_key, Outcome::Done(found));
            let live = !found.doc.deleted && !found.expired;
            &&& live ==> answers(r, req, Status::Success)
            &&& live ==> r.value == encode_utf8(found.doc.value@)
            &&& live ==> r.header.cas == found.doc.cas
            &&& live ==> r.extras.len() == 4 && be_value(r.extras) == found.doc.flags
            &&& live ==> r.header.data_type == 1
            &&& live && return_key ==> r.key == req.key@
            &&& live && !return_key ==> r.key.len() == 0
            &&& !live ==> answers(r, req, Status::KeyNotFound)
            &&& !live ==> r.value.len() == 0 && r.key.len() == 0 && r.extras.len() == 0
                && r.header.cas == 0
        }),
{
    lemma_fits(0, 0, found.doc.flags, 0);
    lemma_be_round_trip(found.doc.flags as nat, 4);
}

/// The metadata of a live document are, after four zero bytes, its flags, its expiry in seconds, its
/// sequence number and a one for JSON.
pub proof fn law_metadata_have_their_places(req: Request, found: Found)
    requires
        refusal(KvKind::GetMeta, req) is None,
        !found.doc.deleted,
        !found.expired,
    ensures
        ({
            let r = meta_response(req, Outcome::Done(found));
            &&& answers(r, req, Status::Success)
            &&& r.header.cas == found.doc.cas
            &&& r.value.len() == 0
            &&& r.extras.len() == 21
            &&& be_value(r.extras.subrange(0, 4)) == 0
            &&& be_value(r.extras.subrange(4, 8)) == found.doc.flags
            &&& found.doc.expiry is None ==> be_value(r.extras.subrange(8, 12)) == 0
            &&& found.doc.expiry is Some ==> be_value(r.extras.subrange(8, 12)) == (
            found.doc.expiry->0 / 1_000_000_000) % 0x1_0000_0000
            &&& be_value(r.extras.subrange(12, 20)) == found.doc.seq_no
            &&& r.extras[20] == 1
        }),
{
    let doc = found.doc;
    let stamp = expiry_stamp(doc.expiry);
    lemma_fits(0, 0, 0, 0);
    lemma_fits(0, 0, doc.flags, doc.seq_no);
    lemma_fits(0, 0, stamp, 0);
    lemma_be_round_trip(0, 4);
    lemma_be_round_trip(doc.flags as nat, 4);
    lemma_be_round_trip(stamp as nat, 4);
    lemma_be_round_trip(doc.seq_no as nat, 8);
    let x = meta_extras(doc);
    assert(x.subrange(0, 4) =~= be_bytes(0, 4));
    assert(x.subrange(4, 8) =~= be_bytes(doc.flags as nat, 4));
    assert(x.subrange(8, 12) =~= be_bytes(stamp as nat, 4));
    assert(x.subrange(12, 20) =~= be_bytes(doc.seq_no as nat, 8));
}

/// What failed is answered with its reason: a missing document as not found, or as not stored where
/// something was to be added to it; another CAS as an existing key; a locked document as locked.
/// No failure is answered as a success.
pub proof fn law_failures_have_their_status(
    kind: KvKind,
    req: Request,
    key: String,
    expected: u64,
    actual: u64,
    e: NosqlError,
)
    ensures
        !answers(failure_for(kind, req, e), req, Status::Success),
        ({
            let missing = failure_for(kind, req, NosqlError::DocumentNotFound(key));
            &&& kind == KvKind::Get || kind == KvKind::Replace || kind == KvKind::Delete || kind
                == KvKind::Touch || kind == KvKind::Increment || kind == KvKind::Decrement || kind
                == KvKind::Exists || kind == KvKind::GetLocked || kind == KvKind::GetMeta || kind
                == KvKind::GetAndTouch || (kind == KvKind::Upsert && req.header.cas != 0)
                ==> answers(missing, req, Status::KeyNotFound)
            &&& kind == KvKind::Append || kind == KvKind::Prepend ==> answers(
                missing,
                req,
                Status::ItemNotStored,
            )
        }),
        ({
            let other = failure_for(kind, req, NosqlError::CasMismatch { expected, actual });
            &&& kind == KvKind::Replace || kind == KvKind::Delete || kind == KvKind::Append || kind
                == KvKind::Prepend || kind == KvKind::Unlock || (kind == KvKind::Upsert
                && req.header.cas != 0) ==> answers(other, req, Status::KeyExists)
        }),
        kind == KvKind::GetLocked ==> answers(
            failure_for(kind, req, NosqlError::DocumentLocked(key)),
            req,
            Status::Locked,
        ),
        kind == KvKind::Unlock && !(e is CasMismatch) ==> answers(
            failure_for(kind, req, e),
            req,
            Status::TmpFail,
        ),
        kind != KvKind::Unlock && kind != KvKind::GetAndTouch && !(e is DocumentNotFound) && !(
        e is CasMismatch) && !(e is DocumentLocked) ==> answers(
            failure_for(kind, req, e),
            req,
            Status::InternalError,
        ) && failure_for(kind, req, e).value == encode_utf8(e.message()),
        answers(no_bucket_for(req), req, Status::NoBucket),
{
}

/// A change of a document goes into the log. Streams and indexes learn of a new value from SET, ADD
/// and REPLACE, which also set the flags, and of a deletion from DELETE; reads have no effects.
pub proof fn law_effects_fit_the_operation(kind: KvKind, req: Request)
    ensures
        effects_of(kind, req).announce_delete <==> kind == KvKind::Delete,
        effects_of(kind, req).announce_upsert <==> kind == KvKind::Upsert || kind == KvKind::Add
            || kind == KvKind::Replace,
        effects_of(kind, req).flags is Some <==> effects_of(kind, req).announce_upsert,
        effects_of(kind, req).flags is Some ==> effects_of(kind, req).flags->0
            == req.flags_and_expiry().0,
        effects_of(kind, req).buffered <==> effects_of(kind, req).announce_upsert || effects_of(
            kind,
            req,
        ).announce_delete || kind == KvKind::Increment || kind == KvKind::Decrement || kind
            == KvKind::Append || kind == KvKind::Prepend,
{
}

/// The bits of a number are read as a signed one: from two to the power of sixty-three on, two to the
/// power of sixty-four less.
pub proof fn law_large_numbers_are_negative(n: u64)
    ensures
        n <= i64::MAX ==> as_signed(n as int) == n,
        n > i64::MAX ==> as_signed(n as int) == n - 0x1_0000_0000_0000_0000,
        i64::MIN <= as_signed(n as int) <= i64::MAX,
{
}

} // verus!
