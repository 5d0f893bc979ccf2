//! The memcached protocol server: one connection's state, what each request leads to, and the
//! answers that need no document.

use crate::be_bytes::{be_bytes, be_value, push_be, read_u16, slice_of};
use crate::crypto::{base64_encode, random_bytes};
use crate::json_text::{json_quoted, lossy_text, push_json_quoted, text_from_utf8_lossy};
use crate::memcached::handler::KvKind;
use crate::memcached::protocol::{
    HelloFeature, Opcode, PacketHeader, Request, Response, ResponseView, Status,
};
use crate::memcached::scram::{is_client_first, signature_of, ScramState, ScramVariant};
use crate::snappy::{compress, decompress, snappy_compressed, snappy_decompressed};
use crate::text::{dec, dec_text, same_text};
use vstd::prelude::*;
use vstd::string::*;
use vstd::utf8::encode_utf8;

verus! {

/// The state of one connection.
#[derive(Debug)]
pub struct ConnectionState {
    pub authenticated: bool,
    pub username: Option<String>,
    pub password: Option<String>,
    pub selected_bucket: Option<String>,
    pub user_agent: Option<String>,
    pub negotiated_features: Vec<u16>,
    pub scram_state: Option<ScramState>,
    pub snappy_enabled: bool,
}

impl ConnectionState {
    pub fn new() -> (r: Self)
        ensures
            !r.authenticated,
            r.username is None,
            r.password is None,
            r.selected_bucket is None,
            r.user_agent is None,
            r.negotiated_features@.len() == 0,
            r.scram_state is None,
            !r.snappy_enabled,
    {
        ConnectionState {
            authenticated: false,
            username: None,
            password: None,
            selected_bucket: None,
            user_agent: None,
            negotiated_features: Vec::new(),
            scram_state: None,
            snappy_enabled: false,
        }
    }
}

// ---- Compression ----

/// Whether the data type says that the value is compressed.
pub open spec fn is_snappy(data_type: u8) -> bool {
    (data_type / 2) % 2 == 1
}

/// The request as the handlers see it: a compressed value is decompressed, if it can be.
pub open spec fn opened(header: PacketHeader, value: Seq<u8>) -> (PacketHeader, Seq<u8>) {
    if is_snappy(header.data_type) && value.len() > 0 && snappy_decompressed(value) is Some {
        (
            PacketHeader { data_type: (header.data_type - 2) as u8, ..header },
            snappy_decompressed(value)->0,
        )
    } else {
        (header, value)
    }
}

/// Decompresses the value of a request, where it is compressed and can be decompressed.
pub fn open_request(req: Request) -> (r: Request)
    ensures
        (r.header, r.value@) == opened(req.header, req.value@),
        r.key == req.key,
        r.extras == req.extras,
{
    let d: u8 = req.header.data_type;
    assert((d & 0x02 != 0) == ((d / 2) % 2 == 1)) by (bit_vector);
    if d & 0x02 != 0 && req.value.len() > 0 {
        match decompress(req.value.as_slice()) {
            Some(value) => {
                let mut r = req;
                r.value = value;
                r.header.data_type = d - 2;
                return r;
            },
            None => {},
        }
    }
    req
}

/// The response as it is sent: a value that is long enough is compressed, where the client has
/// agreed to it and it becomes shorter.
pub open spec fn packed(resp: ResponseView, snappy_enabled: bool) -> ResponseView {
    let small = snappy_compressed(resp.value);
    if snappy_enabled && resp.value.len() > 32 && resp.header.vbucket_or_status
        == Status::Success.code() && small is Some && small->0.len() < resp.value.len() {
        ResponseView::plain(resp.header.opcode, Status::Success, resp.header.opaque).cas(
            resp.header.cas,
        ).with_extras(resp.extras).with_key(resp.key).with_value(small->0).datatype(
            if is_snappy(resp.header.data_type) {
                resp.header.data_type
            } else {
                (resp.header.data_type + 2) as u8
            },
        )
    } else {
        resp
    }
}

/// Compresses the value of a response, where that is agreed and worth it. Opening what is sent
/// gives back the value and the data type.
pub fn pack_response(resp: Response, snappy_enabled: bool) -> (r: Response)
    ensures
        r@ == packed(resp@, snappy_enabled),
        !is_snappy(resp@.header.data_type) ==> opened(r@.header, r@.value).1 == resp@.value
            && opened(r@.header, r@.value).0.data_type == resp@.header.data_type,
{
    if snappy_enabled && resp.value.len() > 32 && resp.header.vbucket_or_status
        == Status::Success.to_u16() {
        match compress(resp.value.as_slice()) {
            Some(small) => {
                if small.len() < resp.value.len() {
                    let d: u8 = resp.header.data_type;
                    assert((d & 0x02 != 0) == ((d / 2) % 2 == 1)) by (bit_vector);
                    assert((d / 2) % 2 != 1 ==> d <= 253);
                    let data_type: u8 = if d & 0x02 != 0 {
                        d
                    } else {
                        d + 2
                    };
                    return Response::new(
                        resp.header.opcode,
                        Status::Success,
                        resp.header.opaque,
                    ).with_cas(resp.header.cas).with_extras(resp.extras).with_key(
                        resp.key,
                    ).with_value(small).with_datatype(data_type);
                }
            },
            None => {},
        }
    }
    resp
}

// ---- What requests lead to ----

/// What a request leads to.
#[derive(Debug)]
pub enum Step {
    /// These responses are sent.
    Respond(Vec<Response>),
    /// Client and server agree on features.
    Hello,
    /// A key-value operation on the selected bucket.
    Kv { kind: KvKind, return_key: bool },
    MultiLookup,
    MultiMutation,
    Authenticate,
    ContinueAuth,
    SelectBucket,
    ClusterConfig,
    Manifest,
    Stat,
    Flush,
}

/// The key-value operation that an opcode stands for, and whether the key is returned with it.
pub open spec fn kv_of(op: Opcode) -> Option<(KvKind, bool)> {
    match op {
        Opcode::Get | Opcode::GetQ => Some((KvKind::Get, false)),
        Opcode::GetK | Opcode::GetKQ | Opcode::GetReplica => Some((KvKind::Get, true)),
        Opcode::SetKey | Opcode::SetQ | Opcode::DurabilitySet => Some((KvKind::Upsert, false)),
        Opcode::Add | Opcode::AddQ | Opcode::DurabilityAdd => Some((KvKind::Add, false)),
        Opcode::Replace | Opcode::ReplaceQ | Opcode::DurabilityReplace => Some(
            (KvKind::Replace, false),
        ),
        Opcode::Delete | Opcode::DeleteQ | Opcode::DurabilityDelete => Some(
            (KvKind::Delete, false),
        ),
        Opcode::Increment | Opcode::IncrementQ => Some((KvKind::Increment, false)),
        Opcode::Decrement | Opcode::DecrementQ => Some((KvKind::Decrement, false)),
        Opcode::Append | Opcode::AppendQ => Some((KvKind::Append, false)),
        Opcode::Prepend | Opcode::PrependQ => Some((KvKind::Prepend, false)),
        Opcode::Touch => Some((KvKind::Touch, false)),
        Opcode::Gat => Some((KvKind::GetAndTouch, false)),
        Opcode::GetLocked => Some((KvKind::GetLocked, false)),
        Opcode::UnlockKey => Some((KvKind::Unlock, false)),
        Opcode::GetMeta => Some((KvKind::GetMeta, false)),
        _ => None,
    }
}

fn kv_operation(op: Opcode) -> (r: Option<(KvKind, bool)>)
    ensures
        r == kv_of(op),
{
    match op {
        Opcode::Get | Opcode::GetQ => Some((KvKind::Get, false)),
        Opcode::GetK | Opcode::GetKQ | Opcode::GetReplica => Some((KvKind::Get, true)),
        Opcode::SetKey | Opcode::SetQ | Opcode::DurabilitySet => Some((KvKind::Upsert, false)),
        Opcode::Add | Opcode::AddQ | Opcode::DurabilityAdd => Some((KvKind::Add, false)),
        Opcode::Replace | Opcode::ReplaceQ | Opcode::DurabilityReplace => Some(
            (KvKind::Replace, false),
        ),
        Opcode::Delete | Opcode::DeleteQ | Opcode::DurabilityDelete => Some(
            (KvKind::Delete, false),
        ),
        Opcode::Increment | Opcode::IncrementQ => Some((KvKind::Increment, false)),
        Opcode::Decrement | Opcode::DecrementQ => Some((KvKind::Decrement, false)),
        Opcode::Append | Opcode::AppendQ => Some((KvKind::Append, false)),
        Opcode::Prepend | Opcode::PrependQ => Some((KvKind::Prepend, false)),
        Opcode::Touch => Some((KvKind::Touch, false)),
        Opcode::Gat => Some((KvKind::GetAndTouch, false)),
        Opcode::GetLocked => Some((KvKind::GetLocked, false)),
        Opcode::UnlockKey => Some((KvKind::Unlock, false)),
        Opcode::GetMeta => Some((KvKind::GetMeta, false)),
        _ => None,
    }
}

/// Whether an opcode is a single sub-document operation, which is not supported on its own.
pub open spec fn is_single_subdoc(op: Opcode) -> bool {
    match op {
        Opcode::SubdocGet
        | Opcode::SubdocExists
        | Opcode::SubdocGetCount
        | Opcode::SubdocDictAdd
        | Opcode::SubdocDictUpsert
        | Opcode::SubdocDelete
        | Opcode::SubdocReplace
        | Opcode::SubdocArrayPushLast
        | Opcode::SubdocArrayPushFirst
        | Opcode::SubdocArrayInsert
        | Opcode::SubdocArrayAddUnique
        | Opcode::SubdocCounter => true,
        _ => false,
    }
}

/// Whether an opcode needs a selected bucket.
pub open spec fn needs_bucket(op: Opcode) -> bool {
    kv_of(op) is Some || is_single_subdoc(op) || op == Opcode::SubdocMultiLookup || op
        == Opcode::SubdocMultiMutation || op == Opcode::Flush || op == Opcode::FlushQ
}

/// Whether a response is not sent: a quiet lookup that found nothing, or a quiet change that
/// succeeded.
pub open spec fn is_suppressed(op: Opcode, status: u16) -> bool {
    match op {
        Opcode::GetQ | Opcode::GetKQ => status == Status::KeyNotFound.code(),
        Opcode::SetQ
        | Opcode::AddQ
        | Opcode::ReplaceQ
        | Opcode::DeleteQ
        | Opcode::IncrementQ
        | Opcode::DecrementQ
        | Opcode::AppendQ
        | Opcode::PrependQ => status == Status::Success.code(),
        _ => false,
    }
}

/// Whether the response to a key-value operation is sent.
pub fn should_send(op: Opcode, resp: &Response) -> (r: bool)
    ensures
        r == !is_suppressed(op, resp.header.vbucket_or_status),
{
    match op {
        Opcode::GetQ | Opcode::GetKQ => resp.header.vbucket_or_status
            != Status::KeyNotFound.to_u16(),
        Opcode::SetQ
        | Opcode::AddQ
        | Opcode::ReplaceQ
        | Opcode::DeleteQ
        | Opcode::IncrementQ
        | Opcode::DecrementQ
        | Opcode::AppendQ
        | Opcode::PrependQ => resp.header.vbucket_or_status != Status::Success.to_u16(),
        _ => true,
    }
}

/// The state of a vBucket as an observer is told: no failover, and no sequence numbers.
pub open spec fn observed(vbucket_id: u16) -> Seq<u8> {
    seq![0u8] + be_bytes(vbucket_id as nat, 2) + be_bytes(0, 8) + be_bytes(0, 8) + be_bytes(0, 8)
}

/// The one response that answers a request without any document, where there is one.
pub open spec fn fixed_answer(req: Request) -> Option<ResponseView> {
    let op = req.header.opcode;
    let ok = ResponseView::plain(op, Status::Success, req.header.opaque);
    match op {
        Opcode::GetErrorMap => Some(
            ok.with_value(encode_utf8("{\"errors\":{},\"revision\":1,\"version\":2}"@)),
        ),
        Opcode::SaslListMechs => Some(
            ok.with_value(encode_utf8("SCRAM-SHA512 SCRAM-SHA256 PLAIN"@)),
        ),
        Opcode::GetCollectionId => Some(ok.with_extras(be_bytes(0, 8) + be_bytes(0, 4))),
        Opcode::ObserveSeqno => Some(ok.with_value(observed(req.header.vbucket_or_status))),
        Opcode::Noop => Some(ok),
        Opcode::Version => Some(
            ok.with_value(encode_utf8("OxideDB 0.3.0 (Couchbase-compatible)"@)),
        ),
        Opcode::Quit => Some(ok),
        Opcode::Unknown => Some(
            ResponseView::plain(op, Status::UnknownCommand, req.header.opaque),
        ),
        _ => None,
    }
}

/// Whether a list of responses holds exactly one, and which.
pub open spec fn single(responses: Seq<Response>, view: ResponseView) -> bool {
    responses.len() == 1 && responses[0]@ == view
}

/// Whether a step is what a request leads to, with or without a selected bucket.
pub open spec fn leads_to(req: Request, has_bucket: bool, step: Step) -> bool {
    let op = req.header.opcode;
    let opaque = req.header.opaque;
    match step {
        Step::Respond(responses) => if needs_bucket(op) && !has_bucket {
            single(
                responses@,
                ResponseView::error(op, Status::NoBucket, opaque, "No bucket selected"@),
            )
        } else if is_single_subdoc(op) {
            single(responses@, ResponseView::plain(op, Status::NotSupported, opaque))
        } else if op == Opcode::QuitQ {
            responses@.len() == 0
        } else {
            fixed_answer(req) is Some && single(responses@, fixed_answer(req)->0)
        },
        Step::Hello => op == Opcode::Hello,
        Step::Kv { kind, return_key } => has_bucket && kv_of(op) == Some((kind, return_key)),
        Step::MultiLookup => has_bucket && op == Opcode::SubdocMultiLookup,
        Step::MultiMutation => has_bucket && op == Opcode::SubdocMultiMutation,
        Step::Authenticate => op == Opcode::SaslAuth,
        Step::ContinueAuth => op == Opcode::SaslStep,
        Step::SelectBucket => op == Opcode::SelectBucket,
        Step::ClusterConfig => op == Opcode::GetClusterConfig,
        Step::Manifest => op == Opcode::GetCollectionsManifest,
        Step::Stat => op == Opcode::Stat,
        Step::Flush => has_bucket && (op == Opcode::Flush || op == Opcode::FlushQ),
    }
}

fn one(resp: Response) -> (r: Step)
    ensures
        r is Respond && single(r->Respond_0@, resp@),
{
    let mut v: Vec<Response> = Vec::new();
    v.push(resp);
    Step::Respond(v)
}

/// What a request leads to.
pub fn process_request(req: &Request, has_bucket: bool) -> (r: Step)
    ensures
        leads_to(*req, has_bucket, r),
{
    let op = req.header.opcode;
    let opaque: u32 = req.header.opaque;
    match kv_operation(op) {
        Some((kind, return_key)) => {
            if has_bucket {
                return Step::Kv { kind, return_key };
            }
            return one(Response::error(op, Status::NoBucket, opaque, "No bucket selected"));
        },
        None => {},
    }
    match op {
        Opcode::Hello => Step::Hello,
        Opcode::GetErrorMap => one(
            Response::new(op, Status::Success, opaque).with_value(
                "{\"errors\":{},\"revision\":1,\"version\":2}".as_bytes_vec(),
            ),
        ),
        Opcode::SaslListMechs => one(
            Response::new(op, Status::Success, opaque).with_value(
                "SCRAM-SHA512 SCRAM-SHA256 PLAIN".as_bytes_vec(),
            ),
        ),
        Opcode::SaslAuth => Step::Authenticate,
        Opcode::SaslStep => Step::ContinueAuth,
        Opcode::SelectBucket => Step::SelectBucket,
        Opcode::GetClusterConfig => Step::ClusterConfig,
        Opcode::SubdocMultiLookup => if has_bucket {
            Step::MultiLookup
        } else {
            one(Response::error(op, Status::NoBucket, opaque, "No bucket selected"))
        },
        Opcode::SubdocMultiMutation => if has_bucket {
            Step::MultiMutation
        } else {
            one(Response::error(op, Status::NoBucket, opaque, "No bucket selected"))
        },
        Opcode::SubdocGet
        | Opcode::SubdocExists
        | Opcode::SubdocGetCount
        | Opcode::SubdocDictAdd
        | Opcode::SubdocDictUpsert
        | Opcode::SubdocDelete
        | Opcode::SubdocReplace
        | Opcode::SubdocArrayPushLast
        | Opcode::SubdocArrayPushFirst
        | Opcode::SubdocArrayInsert
        | Opcode::SubdocArrayAddUnique
        | Opcode::SubdocCounter => if has_bucket {
            one(Response::new(op, Status::NotSupported, opaque))
        } else {
            one(Response::error(op, Status::NoBucket, opaque, "No bucket selected"))
        },
        Opcode::GetCollectionsManifest => Step::Manifest,
        Opcode::GetCollectionId => {
            let mut extras: Vec<u8> = Vec::new();
            push_be(&mut extras, 0, 8);
            push_be(&mut extras, 0, 4);
            assert(extras@ =~= be_bytes(0, 8) + be_bytes(0, 4));
            one(Response::new(op, Status::Success, opaque).with_extras(extras))
        },
        Opcode::ObserveSeqno => {
            let mut value: Vec<u8> = Vec::new();
            value.push(0);
            push_be(&mut value, req.header.vbucket_or_status as u64, 2);
            push_be(&mut value, 0, 8);
            push_be(&mut value, 0, 8);
            push_be(&mut value, 0, 8);
            assert(value@ =~= observed(req.header.vbucket_or_status));
            one(Response::new(op, Status::Success, opaque).with_value(value))
        },
        Opcode::Noop => one(Response::new(op, Status::Success, opaque)),
        Opcode::Version => one(
            Response::new(op, Status::Success, opaque).with_value(
                "OxideDB 0.3.0 (Couchbase-compatible)".as_bytes_vec(),
            ),
        ),
        Opcode::Stat => Step::Stat,
        Opcode::Flush | Opcode::FlushQ => if has_bucket {
            Step::Flush
        } else {
            one(Response::error(op, Status::NoBucket, opaque, "No bucket selected"))
        },
        Opcode::Quit => one(Response::new(op, Status::Success, opaque)),
        Opcode::QuitQ => Step::Respond(Vec::new()),
        _ => one(Response::new(op, Status::UnknownCommand, opaque)),
    }
}

/// The responses to a flush of the selected bucket.
pub fn handle_flush(req: &Request) -> (r: Vec<Response>)
    ensures
        if req.header.opcode == Opcode::FlushQ {
            r@.len() == 0
        } else {
            single(
                r@,
                ResponseView::plain(req.header.opcode, Status::Success, req.header.opaque),
            )
        },
{
    let mut out: Vec<Response> = Vec::new();
    if req.header.opcode != Opcode::FlushQ {
        out.push(Response::new(req.header.opcode, Status::Success, req.header.opaque));
    }
    out
}

/// One line of statistics.
pub open spec fn stat_line(req: Request, key: Seq<char>, value: Seq<char>) -> ResponseView {
    ResponseView::plain(req.header.opcode, Status::Success, req.header.opaque).with_key(
        encode_utf8(key),
    ).with_value(encode_utf8(value))
}

fn stat_of(req: &Request, key: &str, value: &str) -> (r: Response)
    ensures
        r@ == stat_line(*req, key@, value@),
{
    Response::new(req.header.opcode, Status::Success, req.header.opaque).with_key(
        key.as_bytes_vec(),
    ).with_value(value.as_bytes_vec())
}

/// The statistics of a bucket, given its number of documents and of vBuckets: three lines, where
/// there is a bucket, and an empty one at the end.
pub fn handle_stat(req: &Request, bucket: Option<(u64, u16)>) -> (r: Vec<Response>)
    ensures
        ({
            let last = ResponseView::plain(req.header.opcode, Status::Success, req.header.opaque);
            match bucket {
                Some((documents, vbuckets)) => {
                    &&& r@.len() == 4
                    &&& r@[0]@ == stat_line(*req, "curr_items"@, dec(documents as nat))
                    &&& r@[1]@ == stat_line(*req, "ep_bucket_type"@, "couchbase"@)
                    &&& r@[2]@ == stat_line(*req, "vb_active_num"@, dec(vbuckets as nat))
                    &&& r@[3]@ == last
                },
                None => single(r@, last),
            }
        }),
{
    let mut out: Vec<Response> = Vec::new();
    match bucket {
        Some((documents, vbuckets)) => {
            out.push(stat_of(req, "curr_items", dec_text(documents).as_str()));
            out.push(stat_of(req, "ep_bucket_type", "couchbase"));
            out.push(stat_of(req, "vb_active_num", dec_text(vbuckets as u64).as_str()));
        },
        None => {},
    }
    out.push(Response::new(req.header.opcode, Status::Success, req.header.opaque));
    out
}

// ---- Agreement on features ----

/// Whether the server supports a feature.
pub open spec fn supports(feature: u16) -> bool {
    feature == HelloFeature::Datatype.code() || feature == HelloFeature::TcpNodelay.code()
        || feature == HelloFeature::MutationSeqno.code() || feature == HelloFeature::Xattr.code()
        || feature == HelloFeature::Xerror.code() || feature == HelloFeature::SelectBucket.code()
        || feature == HelloFeature::Snappy.code() || feature == HelloFeature::Json.code()
        || feature == HelloFeature::Duplex.code() || feature
        == HelloFeature::ClustermapNotif.code() || feature == HelloFeature::UnorderedExec.code()
        || feature == HelloFeature::AltRequest.code() || feature
        == HelloFeature::SyncReplication.code() || feature == HelloFeature::Collections.code()
        || feature == HelloFeature::PreserveTtl.code()
}

fn is_supported(feature: u16) -> (r: bool)
    ensures
        r == supports(feature),
{
    match feature {
        0x0001 | 0x0003 | 0x0004 | 0x0006 | 0x0007 | 0x0008 | 0x000A | 0x000B | 0x000C | 0x000D
        | 0x000E | 0x0010 | 0x0011 | 0x0012 | 0x0014 => true,
        _ => false,
    }
}

/// The `i`-th feature that a client asks for.
pub open spec fn feature_at(value: Seq<u8>, i: int) -> u16 {
    be_value(value.subrange(2 * i, 2 * i + 2)) as u16
}

/// The supported ones among the first `k` features that a client asks for.
pub open spec fn agreed(value: Seq<u8>, k: int) -> Seq<u16>
    decreases k,
{
    if k <= 0 {
        Seq::empty()
    } else if supports(feature_at(value, k - 1)) {
        agreed(value, k - 1).push(feature_at(value, k - 1))
    } else {
        agreed(value, k - 1)
    }
}

/// The bytes of the first `k` of a list of features.
pub open spec fn feature_bytes(features: Seq<u16>, k: int) -> Seq<u8>
    decreases k,
{
    if k <= 0 {
        Seq::empty()
    } else {
        feature_bytes(features, k - 1) + be_bytes(features[k - 1] as nat, 2)
    }
}

/// Answers a HELLO: the features that client and server both know.
pub fn handle_hello(req: &Request, state: &mut ConnectionState) -> (r: Response)
    ensures
        ({
            let features = agreed(req.value@, req.value@.len() as int / 2);
            &&& r@ == ResponseView::plain(Opcode::Hello, Status::Success, req.header.opaque)
                .with_value(feature_bytes(features, features.len() as int))
            &&& final(state).negotiated_features@ == features
            &&& final(state).snappy_enabled == features.contains(HelloFeature::Snappy.code())
        }),
        final(state).user_agent is Some,
        final(state).user_agent->0@ == lossy_text(req.key@),
        final(state).authenticated == old(state).authenticated,
        final(state).username == old(state).username,
        final(state).password == old(state).password,
        final(state).selected_bucket == old(state).selected_bucket,
        final(state).scram_state == old(state).scram_state,
{
    let agent = text_from_utf8_lossy(req.key.as_slice());
    let total: usize = req.value.len();
    let pairs: usize = total / 2;
    let mut supported: Vec<u16> = Vec::new();
    let mut value: Vec<u8> = Vec::new();
    let mut snappy = false;
    let mut i: usize = 0;
    assert(value@ =~= feature_bytes(supported@, 0));
    while i < pairs
        invariant
            i <= pairs,
            total == req.value@.len(),
            pairs == total / 2,
            supported@ == agreed(req.value@, i as int),
            value@ == feature_bytes(supported@, supported@.len() as int),
            snappy == supported@.contains(HelloFeature::Snappy.code()),
        decreases pairs - i,
    {
        let feature: u16 = read_u16(req.value.as_slice(), 2 * i);
        assert(feature == feature_at(req.value@, i as int));
        if is_supported(feature) {
            let ghost prior = supported@;
            supported.push(feature);
            push_be(&mut value, feature as u64, 2);
            proof {
                lemma_feature_prefix(supported@, prior, prior.len() as int);
                if feature == HelloFeature::Snappy.code() {
                    assert(supported@[prior.len() as int] == feature);
                } else {
                    assert(snappy == supported@.contains(HelloFeature::Snappy.code())) by {
                        if prior.contains(HelloFeature::Snappy.code()) {
                            let k = choose|k: int|
                                0 <= k < prior.len() && prior[k] == HelloFeature::Snappy.code();
                            assert(supported@[k] == HelloFeature::Snappy.code());
                        }
                        if supported@.contains(HelloFeature::Snappy.code()) {
                            let k = choose|k: int|
                                0 <= k < supported@.len() && supported@[k]
                                    == HelloFeature::Snappy.code();
                            assert(prior[k] == HelloFeature::Snappy.code());
                        }
                    }
                }
            }
            if feature == 0x000A {
                snappy = true;
            }
        }
        i = i + 1;
    }
    state.user_agent = Some(agent);
    state.negotiated_features = supported;
    state.snappy_enabled = snappy;
    Response::new(Opcode::Hello, Status::Success, req.header.opaque).with_value(value)
}

proof fn lemma_feature_prefix(a: Seq<u16>, b: Seq<u16>, k: int)
    requires
        k <= a.len(),
        k <= b.len(),
        forall|i: int| 0 <= i < k ==> a[i] == b[i],
    ensures
        feature_bytes(a, k) == feature_bytes(b, k),
    decreases k,
{
    if k > 0 {
        lemma_feature_prefix(a, b, k - 1);
    }
}

// ---- Authentication ----

/// The first place at or after `i` at which a zero byte stands, or the end.
pub open spec fn zero_at(s: Seq<u8>, i: int) -> int
    decreases s.len() - i,
{
    if i < 0 || i >= s.len() || s[i] == 0 {
        i
    } else {
        zero_at(s, i + 1)
    }
}

fn find_zero(s: &Vec<u8>, from: usize) -> (r: usize)
    requires
        from <= s@.len(),
    ensures
        r == zero_at(s@, from as int),
        from <= r <= s@.len(),
{
    let mut i: usize = from;
    while i < s.len() && s[i] != 0
        invariant
            from <= i <= s@.len(),
            zero_at(s@, from as int) == zero_at(s@, i as int),
        decreases s@.len() - i,
    {
        i = i + 1;
    }
    i
}

/// The name in a PLAIN message: what stands between the first and the second zero byte.
pub open spec fn plain_username(value: Seq<u8>) -> Seq<char> {
    let a = zero_at(value, 0);
    if a < value.len() {
        lossy_text(value.subrange(a + 1, zero_at(value, a + 1)))
    } else {
        "anonymous"@
    }
}

/// The password in a PLAIN message: what follows the second zero byte.
pub open spec fn plain_password(value: Seq<u8>) -> Seq<char> {
    let a = zero_at(value, 0);
    let b = zero_at(value, a + 1);
    if a < value.len() && b < value.len() {
        lossy_text(value.subrange(b + 1, value.len() as int))
    } else {
        Seq::empty()
    }
}

/// The SCRAM variant that a mechanism names.
pub open spec fn scram_variant(mechanism: Seq<char>) -> Option<ScramVariant> {
    if mechanism == "SCRAM-SHA512"@ {
        Some(ScramVariant::Sha512)
    } else if mechanism == "SCRAM-SHA256"@ {
        Some(ScramVariant::Sha256)
    } else {
        None
    }
}

/// Whether all but the handshake is the same in two states.
pub open spec fn same_but_scram(a: ConnectionState, b: ConnectionState) -> bool {
    &&& a.authenticated == b.authenticated
    &&& a.username == b.username
    &&& a.password == b.password
    &&& a.selected_bucket == b.selected_bucket
    &&& a.user_agent == b.user_agent
    &&& a.negotiated_features == b.negotiated_features
    &&& a.snappy_enabled == b.snappy_enabled
}

/// Whether a state is another one with a client logged in.
pub open spec fn logged_in(
    a: ConnectionState,
    b: ConnectionState,
    username: Seq<char>,
    password: Seq<char>,
) -> bool {
    &&& a.authenticated
    &&& a.username is Some
    &&& a.username->0@ == username
    &&& a.password is Some
    &&& a.password->0@ == password
    &&& a.selected_bucket == b.selected_bucket
    &&& a.user_agent == b.user_agent
    &&& a.negotiated_features == b.negotiated_features
    &&& a.snappy_enabled == b.snappy_enabled
}

/// Whether a response and the state after it answer a SASL_AUTH, with a server nonce and a salt.
pub open spec fn answers_auth(
    req: Request,
    before: ConnectionState,
    after: ConnectionState,
    resp: ResponseView,
    server_nonce: Seq<char>,
    salt: Seq<u8>,
) -> bool {
    let mechanism = lossy_text(req.key@);
    let opaque = req.header.opaque;
    if mechanism == "PLAIN"@ {
        &&& resp == ResponseView::plain(Opcode::SaslAuth, Status::Success, opaque).with_value(
            encode_utf8("Authenticated"@),
        )
        &&& logged_in(after, before, plain_username(req.value@), plain_password(req.value@))
        &&& after.scram_state == before.scram_state
    } else {
        match scram_variant(mechanism) {
            Some(variant) => if is_client_first(req.value@) {
                &&& same_but_scram(after, before)
                &&& after.scram_state is Some
                &&& after.scram_state->0.begins(variant, req.value@, server_nonce, salt)
                &&& resp == ResponseView::plain(
                    Opcode::SaslAuth,
                    Status::AuthContinue,
                    opaque,
                ).with_value(encode_utf8(after.scram_state->0.server_first@))
            } else {
                &&& after == before
                &&& resp == ResponseView::error(
                    Opcode::SaslAuth,
                    Status::AuthError,
                    opaque,
                    "Invalid SCRAM client-first message"@,
                )
            },
            None => {
                &&& after == before
                &&& resp == ResponseView::error(
                    Opcode::SaslAuth,
                    Status::AuthError,
                    opaque,
                    "Unsupported SASL mechanism: "@ + mechanism,
                )
            },
        }
    }
}

/// Answers a SASL_AUTH with a given nonce and salt for SCRAM.
pub fn handle_sasl_auth_with(
    req: &Request,
    state: &mut ConnectionState,
    server_nonce: &str,
    salt: Vec<u8>,
) -> (r: Response)
    ensures
        answers_auth(*req, *old(state), *final(state), r@, server_nonce@, salt@),
{
    let mechanism = text_from_utf8_lossy(req.key.as_slice());
    let opaque: u32 = req.header.opaque;
    if same_text(mechanism.as_str(), "PLAIN") {
        let n: usize = req.value.len();
        let a: usize = find_zero(&req.value, 0);
        let mut username = "anonymous".to_owned();
        let mut password = String::new();
        assert(password@ =~= Seq::<char>::empty());
        if a < n {
            let b: usize = find_zero(&req.value, a + 1);
            let name = slice_of(req.value.as_slice(), a + 1, b);
            username = text_from_utf8_lossy(name.as_slice());
            if b < n {
                let rest = slice_of(req.value.as_slice(), b + 1, n);
                password = text_from_utf8_lossy(rest.as_slice());
            }
        }
        state.authenticated = true;
        state.username = Some(username);
        state.password = Some(password);
        return Response::new(Opcode::SaslAuth, Status::Success, opaque).with_value(
            "Authenticated".as_bytes_vec(),
        );
    }
    let is_512 = same_text(mechanism.as_str(), "SCRAM-SHA512");
    let is_256 = same_text(mechanism.as_str(), "SCRAM-SHA256");
    if is_512 || is_256 {
        let variant = if is_512 {
            ScramVariant::Sha512
        } else {
            ScramVariant::Sha256
        };
        return match ScramState::from_client_first_with(
            variant,
            req.value.as_slice(),
            server_nonce,
            salt,
        ) {
            Some((scram, reply)) => {
                state.scram_state = Some(scram);
                Response::new(Opcode::SaslAuth, Status::AuthContinue, opaque).with_value(reply)
            },
            None => Response::error(
                Opcode::SaslAuth,
                Status::AuthError,
                opaque,
                "Invalid SCRAM client-first message",
            ),
        };
    }
    let mut msg = "Unsupported SASL mechanism: ".to_owned();
    msg.append(mechanism.as_str());
    Response::error(Opcode::SaslAuth, Status::AuthError, opaque, msg.as_str())
}

/// Answers a SASL_AUTH, with a random nonce and salt for SCRAM.
pub fn handle_sasl_auth(req: &Request, state: &mut ConnectionState) -> (r: Response)
    ensures
        exists|server_nonce: Seq<char>, salt: Seq<u8>| #[trigger]
            answers_auth(*req, *old(state), *final(state), r@, server_nonce, salt),
{
    let nonce_bytes = random_bytes(24);
    let server_nonce = base64_encode(nonce_bytes.as_slice());
    let salt = random_bytes(16);
    let ghost salt_bytes = salt@;
    let r = handle_sasl_auth_with(req, state, server_nonce.as_str(), salt);
    assert(answers_auth(*req, *old(state), *final(state), r@, server_nonce@, salt_bytes));
    r
}

/// Answers a SASL_STEP, the second step of SCRAM, which ends the handshake either way.
pub fn handle_sasl_step(req: &Request, state: &mut ConnectionState) -> (r: Response)
    ensures
        final(state).scram_state is None,
        match old(state).scram_state {
            Some(scram) => if scram.accepts(req.value@) {
                &&& logged_in(*final(state), *old(state), scram.username@, "password"@)
                &&& r@ == ResponseView::plain(
                    Opcode::SaslStep,
                    Status::Success,
                    req.header.opaque,
                ).with_value(
                    encode_utf8(
                        "v="@ + crate::crypto::base64_of(
                            signature_of(
                                scram.variant,
                                "password"@,
                                scram.salt@,
                                scram.iterations,
                                scram.auth_message(vstd::utf8::decode_utf8(req.value@)),
                            ),
                        ),
                    ),
                )
            } else {
                &&& same_but_scram(*final(state), *old(state))
                &&& r@ == ResponseView::error(
                    Opcode::SaslStep,
                    Status::AuthError,
                    req.header.opaque,
                    "SCRAM authentication failed"@,
                )
            },
            None => {
                &&& same_but_scram(*final(state), *old(state))
                &&& r@ == ResponseView::error(
                    Opcode::SaslStep,
                    Status::AuthError,
                    req.header.opaque,
                    "No SCRAM auth in progress"@,
                )
            },
        },
{
    let opaque: u32 = req.header.opaque;
    match state.scram_state.take() {
        Some(scram) => {
            match scram.process_client_final(req.value.as_slice(), "password") {
                Some(server_final) => {
                    state.authenticated = true;
                    state.username = Some(scram.username.clone());
                    state.password = Some("password".to_owned());
                    Response::new(Opcode::SaslStep, Status::Success, opaque).with_value(
                        server_final,
                    )
                },
                None => Response::error(
                    Opcode::SaslStep,
                    Status::AuthError,
                    opaque,
                    "SCRAM authentication failed",
                ),
            }
        },
        None => Response::error(
            Opcode::SaslStep,
            Status::AuthError,
            opaque,
            "No SCRAM auth in progress",
        ),
    }
}

// ---- Buckets and cluster ----

/// The name of the bucket that a request selects.
pub fn selected_name(req: &Request) -> (r: String)
    ensures
        r@ == lossy_text(req.key@),
{
    text_from_utf8_lossy(req.key.as_slice())
}

/// Answers a SELECT_BUCKET, given whether there is such a bucket.
pub fn handle_select_bucket(req: &Request, state: &mut ConnectionState, exists_bucket: bool) -> (r:
    Response)
    ensures
        ({
            let name = lossy_text(req.key@);
            if exists_bucket {
                &&& final(state).selected_bucket is Some
                &&& final(state).selected_bucket->0@ == name
                &&& final(state).authenticated == old(state).authenticated
                &&& final(state).username == old(state).username
                &&& final(state).password == old(state).password
                &&& final(state).user_agent == old(state).user_agent
                &&& final(state).negotiated_features == old(state).negotiated_features
                &&& final(state).scram_state == old(state).scram_state
                &&& final(state).snappy_enabled == old(state).snappy_enabled
                &&& r@ == ResponseView::plain(
                    Opcode::SelectBucket,
                    Status::Success,
                    req.header.opaque,
                )
            } else {
                &&& *final(state) == *old(state)
                &&& r@ == ResponseView::error(
                    Opcode::SelectBucket,
                    Status::KeyNotFound,
                    req.header.opaque,
                    "Bucket '"@ + name + "' not found"@,
                )
            }
        }),
{
    let name = selected_name(req);
    if exists_bucket {
        state.selected_bucket = Some(name);
        return Response::new(Opcode::SelectBucket, Status::Success, req.header.opaque);
    }
    let mut msg = "Bucket '".to_owned();
    msg.append(name.as_str());
    msg.append("' not found");
    Response::error(Opcode::SelectBucket, Status::KeyNotFound, req.header.opaque, msg.as_str())
}

/// Answers a request for the cluster configuration with its JSON text.
pub fn handle_get_cluster_config(req: &Request, config_json: &str) -> (r: Response)
    ensures
        r@ == ResponseView::plain(
            Opcode::GetClusterConfig,
            Status::Success,
            req.header.opaque,
        ).with_value(encode_utf8(config_json@)),
{
    Response::new(Opcode::GetClusterConfig, Status::Success, req.header.opaque).with_value(
        config_json.as_bytes_vec(),
    )
}

/// A scope and its collections.
#[derive(Debug)]
pub struct ScopeEntry {
    pub name: String,
    pub collections: Vec<String>,
}

/// The JSON of the first `k` collections of a scope.
pub open spec fn collections_json(names: Seq<String>, k: int) -> Seq<char>
    decreases k,
{
    if k <= 0 {
        Seq::empty()
    } else {
        let item = "{\"maxTTL\":0,\"name\":"@ + json_quoted(names[k - 1]@) + ",\"uid\":\"0\"}"@;
        if k == 1 {
            item
        } else {
            collections_json(names, k - 1) + ","@ + item
        }
    }
}

/// The JSON of a scope.
pub open spec fn scope_json(scope: ScopeEntry) -> Seq<char> {
    "{\"collections\":["@ + collections_json(scope.collections@, scope.collections@.len() as int)
        + "],\"name\":"@ + json_quoted(scope.name@) + ",\"uid\":\"0\"}"@
}

/// The JSON of the first `k` scopes.
pub open spec fn scopes_json(scopes: Seq<ScopeEntry>, k: int) -> Seq<char>
    decreases k,
{
    if k <= 0 {
        Seq::empty()
    } else if k == 1 {
        scope_json(scopes[0])
    } else {
        scopes_json(scopes, k - 1) + ","@ + scope_json(scopes[k - 1])
    }
}

/// The collections manifest of a bucket: its scopes, or the default one where there is none.
pub open spec fn manifest_json(scopes: Seq<ScopeEntry>) -> Seq<char> {
    if scopes.len() == 0 {
        "{\"scopes\":[{\"collections\":[{\"maxTTL\":0,\"name\":\"_default\",\"uid\":\"0\"}],\"name\":\"_default\",\"uid\":\"0\"}],\"uid\":\"0\"}"@
    } else {
        "{\"scopes\":["@ + scopes_json(scopes, scopes.len() as int) + "],\"uid\":\"0\"}"@
    }
}

fn push_scope(out: &mut String, scope: &ScopeEntry)
    ensures
        final(out)@ == old(out)@ + scope_json(*scope),
{
    let ghost start = out@;
    out.append("{\"collections\":[");
    let ghost head = out@;
    let mut k: usize = 0;
    assert(out@ =~= head + collections_json(scope.collections@, 0));
    while k < scope.collections.len()
        invariant
            k <= scope.collections@.len(),
            out@ == head + collections_json(scope.collections@, k as int),
        decreases scope.collections@.len() - k,
    {
        if k > 0 {
            out.append(",");
        }
        out.append("{\"maxTTL\":0,\"name\":");
        push_json_quoted(out, scope.collections[k].as_str());
        out.append(",\"uid\":\"0\"}");
        k = k + 1;
        assert(out@ =~= head + collections_json(scope.collections@, k as int));
    }
    out.append("],\"name\":");
    push_json_quoted(out, scope.name.as_str());
    out.append(",\"uid\":\"0\"}");
    assert(out@ =~= start + scope_json(*scope));
}

/// The collections manifest of a bucket.
pub fn build_collections_manifest(scopes: &Vec<ScopeEntry>) -> (r: String)
    ensures
        r@ == manifest_json(scopes@),
{
    if scopes.len() == 0 {
        return "{\"scopes\":[{\"collections\":[{\"maxTTL\":0,\"name\":\"_default\",\"uid\":\"0\"}],\"name\":\"_default\",\"uid\":\"0\"}],\"uid\":\"0\"}".to_owned();
    }
    let mut out = "{\"scopes\":[".to_owned();
    let ghost head = out@;
    let mut k: usize = 0;
    assert(out@ =~= head + scopes_json(scopes@, 0));
    while k < scopes.len()
        invariant
            k <= scopes@.len(),
            out@ == head + scopes_json(scopes@, k as int),
        decreases scopes@.len() - k,
    {
        if k > 0 {
            out.append(",");
        }
        push_scope(&mut out, &scopes[k]);
        k = k + 1;
        assert(out@ =~= head + scopes_json(scopes@, k as int));
    }
    out.append("],\"uid\":\"0\"}");
    out
}

/// The manifest that is sent while no bucket is selected.
pub open spec fn default_manifest() -> Seq<char> {
    "{\"uid\":\"0\",\"scopes\":[{\"name\":\"_default\",\"uid\":\"0\",\"collections\":[{\"name\":\"_default\",\"uid\":\"0\"}]}]}"@
}

/// Answers a request for the collections manifest, given the scopes of the selected bucket.
pub fn handle_get_manifest(req: &Request, scopes: Option<&Vec<ScopeEntry>>) -> (r: Response)
    ensures
        r@ == ResponseView::plain(
            req.header.opcode,
            Status::Success,
            req.header.opaque,
        ).with_value(
            encode_utf8(
                match scopes {
                    Some(list) => manifest_json(list@),
                    None => default_manifest(),
                },
            ),
        ),
{
    let text = match scopes {
        Some(list) => build_collections_manifest(list),
        None => "{\"uid\":\"0\",\"scopes\":[{\"name\":\"_default\",\"uid\":\"0\",\"collections\":[{\"name\":\"_default\",\"uid\":\"0\"}]}]}".to_owned(),
    };
    Response::new(req.header.opcode, Status::Success, req.header.opaque).with_value(
        text.as_str().as_bytes_vec(),
    )
}

// ---- Laws ----

/// A request whose value is not marked as compressed reaches the handlers as it came.
pub proof fn law_plain_requests_are_kept(header: PacketHeader, value: Seq<u8>)
    requires
        !is_snappy(header.data_type),
    ensures
        opened(header, value) == (header, value),
{
}

/// Quiet operations are silent in the usual case, and only then: nothing else is suppressed.
pub proof fn law_errors_are_never_suppressed(op: Opcode, status: Status)
    requires
        is_suppressed(op, status.code()),
    ensures
        status == Status::Success || status == Status::KeyNotFound,
{
}

/// Every feature that is agreed on is one that the client asked for and the server supports.
pub proof fn law_agreed_features_were_asked_for(value: Seq<u8>, k: int, i: int)
    requires
        0 <= i < agreed(value, k).len(),
    ensures
        supports(agreed(value, k)[i]),
        exists|j: int| 0 <= j < k && #[trigger] feature_at(value, j) == agreed(value, k)[i],
    decreases k,
{
    let rest = agreed(value, k - 1);
    if i < rest.len() {
        law_agreed_features_were_asked_for(value, k - 1, i);
        let j = choose|j: int| 0 <= j < k - 1 && #[trigger] feature_at(value, j) == rest[i];
        assert(feature_at(value, j) == agreed(value, k)[i]);
    } else {
        assert(feature_at(value, k - 1) == agreed(value, k)[i]);
    }
}

/// Every opcode for a document leads to the operation of its name, whether quiet, durable or plain;
/// the key comes back with the document exactly for those that ask for it.
pub proof fn law_opcodes_lead_to_their_operation(op: Opcode)
    ensures
        ({
            let is = |kind: KvKind|
                match kv_of(op) {
                    Some((k, _)) => k == kind,
                    None => false,
                };
            &&& is(KvKind::Get) <==> op == Opcode::Get || op == Opcode::GetQ || op == Opcode::GetK
                || op == Opcode::GetKQ || op == Opcode::GetReplica
            &&& is(KvKind::Upsert) <==> op == Opcode::SetKey || op == Opcode::SetQ || op
                == Opcode::DurabilitySet
            &&& is(KvKind::Add) <==> op == Opcode::Add || op == Opcode::AddQ || op
                == Opcode::DurabilityAdd
            &&& is(KvKind::Replace) <==> op == Opcode::Replace || op == Opcode::ReplaceQ || op
                == Opcode::DurabilityReplace
            &&& is(KvKind::Delete) <==> op == Opcode::Delete || op == Opcode::DeleteQ || op
                == Opcode::DurabilityDelete
            &&& is(KvKind::Increment) <==> op == Opcode::Increment || op == Opcode::IncrementQ
            &&& is(KvKind::Decrement) <==> op == Opcode::Decrement || op == Opcode::DecrementQ
            &&& is(KvKind::Append) <==> op == Opcode::Append || op == Opcode::AppendQ
            &&& is(KvKind::Prepend) <==> op == Opcode::Prepend || op == Opcode::PrependQ
            &&& is(KvKind::Touch) <==> op == Opcode::Touch
            &&& is(KvKind::GetAndTouch) <==> op == Opcode::Gat
            &&& is(KvKind::GetLocked) <==> op == Opcode::GetLocked
            &&& is(KvKind::Unlock) <==> op == Opcode::UnlockKey
            &&& is(KvKind::GetMeta) <==> op == Opcode::GetMeta
            &&& kv_of(op) == Some((KvKind::Get, true)) <==> op == Opcode::GetK || op
                == Opcode::GetKQ || op == Opcode::GetReplica
            &&& match kv_of(op) {
                Some((k, with_key)) => with_key ==> k == KvKind::Get,
                None => true,
            }
        }),
{
}

/// A quiet lookup is silent exactly where nothing was found, a quiet change exactly where it
/// succeeded, and everything else is always answered.
pub proof fn law_quiet_operations_are_silent(op: Opcode, status: Status)
    ensures
        op == Opcode::GetQ || op == Opcode::GetKQ ==> (is_suppressed(op, status.code()) <==> status
            == Status::KeyNotFound),
        op == Opcode::SetQ || op == Opcode::AddQ || op == Opcode::ReplaceQ || op == Opcode::DeleteQ
            || op == Opcode::IncrementQ || op == Opcode::DecrementQ || op == Opcode::AppendQ || op
            == Opcode::PrependQ ==> (is_suppressed(op, status.code()) <==> status == Status::Success),
        op != Opcode::GetQ && op != Opcode::GetKQ && op != Opcode::SetQ && op != Opcode::AddQ && op
            != Opcode::ReplaceQ && op != Opcode::DeleteQ && op != Opcode::IncrementQ && op
            != Opcode::DecrementQ && op != Opcode::AppendQ && op != Opcode::PrependQ
            ==> !is_suppressed(op, status.code()),
{
}

/// Requests about documents are refused while no bucket is selected, and carried out where one is;
/// the other requests lead to what they are called, with or without a bucket.
pub proof fn law_requests_lead_to_their_step(req: Request, has_bucket: bool, step: Step)
    requires
        leads_to(req, has_bucket, step),
    ensures
        ({
            let op = req.header.opcode;
            let about_documents = kv_of(op) is Some || op == Opcode::SubdocMultiLookup || op
                == Opcode::SubdocMultiMutation || op == Opcode::Flush || op == Opcode::FlushQ;
            &&& about_documents && !has_bucket ==> step is Respond && step->Respond_0@.len() == 1
                && step->Respond_0@[0]@.header.vbucket_or_status == Status::NoBucket.code()
                && step->Respond_0@[0]@.header.opaque == req.header.opaque
            &&& kv_of(op) is Some && has_bucket ==> step is Kv && kv_of(op) == Some(
                (step->kind, step->return_key),
            )
            &&& op == Opcode::SubdocMultiLookup && has_bucket ==> step is MultiLookup
            &&& op == Opcode::SubdocMultiMutation && has_bucket ==> step is MultiMutation
            &&& (op == Opcode::Flush || op == Opcode::FlushQ) && has_bucket ==> step is Flush
            &&& op == Opcode::Hello ==> step is Hello
            &&& op == Opcode::SaslAuth ==> step is Authenticate
            &&& op == Opcode::SaslStep ==> step is ContinueAuth
            &&& op == Opcode::SelectBucket ==> step is SelectBucket
            &&& op == Opcode::GetClusterConfig ==> step is ClusterConfig
            &&& op == Opcode::GetCollectionsManifest ==> step is Manifest
            &&& op == Opcode::Stat ==> step is Stat
            &&& op == Opcode::Noop || op == Opcode::Quit || op == Opcode::Version || op
                == Opcode::SaslListMechs || op == Opcode::GetErrorMap ==> step is Respond
                && step->Respond_0@.len() == 1 && step->Respond_0@[0]@.header.vbucket_or_status
                == Status::Success.code() && step->Respond_0@[0]@.header.opcode == op
            &&& op == Opcode::QuitQ ==> step is Respond && step->Respond_0@.len() == 0
            &&& op == Opcode::Unknown ==> step is Respond && step->Respond_0@.len() == 1
                && step->Respond_0@[0]@.header.vbucket_or_status == Status::UnknownCommand.code()
            &&& is_single_subdoc(op) && has_bucket ==> step is Respond && step->Respond_0@.len() == 1
                && step->Respond_0@[0]@.header.vbucket_or_status == Status::NotSupported.code()
        }),
{
}

/// A value is marked as compressed by the second-lowest bit of the data type.
pub proof fn law_compression_is_a_bit(data_type: u8)
    ensures
        is_snappy(data_type) <==> data_type & 0x02 != 0,
{
    assert((data_type & 0x02 != 0) == ((data_type / 2) % 2 == 1)) by (bit_vector);
}

/// A compressed value reaches the handlers decompressed, and no longer marked; one that cannot be
/// decompressed is left as it came.
pub proof fn law_compressed_requests_are_opened(header: PacketHeader, value: Seq<u8>)
    requires
        is_snappy(header.data_type),
        value.len() > 0,
    ensures
        snappy_decompressed(value) is Some ==> opened(header, value).1 == snappy_decompressed(
            value,
        )->0 && !is_snappy(opened(header, value).0.data_type) && opened(header, value).0 == (
        PacketHeader { data_type: (header.data_type - 2) as u8, ..header }),
        snappy_decompressed(value) is None ==> opened(header, value) == (header, value),
{
}

/// Only a successful value of more than thirty-two bytes is compressed, only for a client that agreed
/// to it, and only where it becomes shorter; all else about the response stays.
pub proof fn law_only_long_values_are_compressed(resp: ResponseView, snappy_enabled: bool)
    ensures
        ({
            let sent = packed(resp, snappy_enabled);
            &&& sent.value.len() <= resp.value.len()
            &&& !snappy_enabled || resp.value.len() <= 32 || resp.header.vbucket_or_status
                != Status::Success.code() ==> sent == resp
            &&& sent.header.vbucket_or_status == resp.header.vbucket_or_status
            &&& sent.header.opaque == resp.header.opaque
            &&& sent.header.opcode == resp.header.opcode
            &&& sent.header.cas == resp.header.cas
            &&& sent.extras == resp.extras
            &&& sent.key == resp.key
            &&& sent.value != resp.value ==> is_snappy(sent.header.data_type) && snappy_compressed(
                resp.value,
            ) == Some(sent.value)
        }),
{
}

/// The features that the server supports: all that it knows but encryption and delays.
pub proof fn law_supported_features(feature: HelloFeature)
    ensures
        supports(feature.code()) <==> feature != HelloFeature::Tls && feature
            != HelloFeature::TcpDelay,
{
}

/// Client and server agree on exactly the features that the client asked for and the server supports,
/// in the client's order.
pub proof fn law_features_are_those_both_know(value: Seq<u8>, k: int)
    requires
        0 <= k,
    ensures
        agreed(value, k) == Seq::new(k as nat, |i: int| feature_at(value, i)).filter(
            |f: u16| supports(f),
        ),
    decreases k,
{
    reveal(Seq::filter);
    let all = Seq::new(k as nat, |i: int| feature_at(value, i));
    if k > 0 {
        law_features_are_those_both_know(value, k - 1);
        assert(all.drop_last() =~= Seq::new((k - 1) as nat, |i: int| feature_at(value, i)));
    } else {
        assert(agreed(value, k) =~= all.filter(|f: u16| supports(f)));
    }
}

/// The answer lists the features in two bytes each.
pub proof fn law_features_are_listed(features: Seq<u16>, k: int, i: int)
    requires
        0 <= i < k <= features.len(),
    ensures
        feature_bytes(features, k).len() == 2 * k,
        be_value(feature_bytes(features, k).subrange(2 * i, 2 * i + 2)) == features[i],
    decreases k,
{
    let rest = feature_bytes(features, k - 1);
    let all = feature_bytes(features, k);
    crate::be_bytes::lemma_fits(0, features[k - 1], 0, 0);
    crate::be_bytes::lemma_be_round_trip(features[k - 1] as nat, 2);
    lemma_feature_len(features, k - 1);
    if i < k - 1 {
        law_features_are_listed(features, k - 1, i);
        assert(all.subrange(2 * i, 2 * i + 2) =~= rest.subrange(2 * i, 2 * i + 2));
    } else {
        assert(all.subrange(2 * i, 2 * i + 2) =~= be_bytes(features[k - 1] as nat, 2));
    }
}

proof fn lemma_feature_len(features: Seq<u16>, k: int)
    requires
        0 <= k <= features.len(),
    ensures
        feature_bytes(features, k).len() == 2 * k,
    decreases k,
{
    if k > 0 {
        lemma_feature_len(features, k - 1);
        crate::be_bytes::lemma_be_bytes_len(features[k - 1] as nat, 2);
    }
}

proof fn lemma_zero_at(s: Seq<u8>, i: int, p: int)
    requires
        0 <= i <= p <= s.len(),
        forall|k: int| i <= k < p ==> s[k] != 0,
        p < s.len() ==> s[p] == 0,
    ensures
        zero_at(s, i) == p,
    decreases p - i,
{
    if i < p {
        lemma_zero_at(s, i + 1, p);
    }
}

/// A PLAIN message is who to act for, a zero byte, the name, a zero byte, and the password.
pub proof fn law_plain_messages(who: Seq<u8>, name: Seq<u8>, password: Seq<u8>)
    requires
        !who.contains(0),
        !name.contains(0),
    ensures
        plain_username(who + seq![0u8] + name + seq![0u8] + password) == lossy_text(name),
        plain_password(who + seq![0u8] + name + seq![0u8] + password) == lossy_text(password),
{
    let msg = who + seq![0u8] + name + seq![0u8] + password;
    let a = who.len() as int;
    let b = a + 1 + name.len();
    assert forall|k: int| 0 <= k < a implies msg[k] != 0 by {
        assert(who.contains(who[k]));
    }
    assert forall|k: int| a + 1 <= k < b implies msg[k] != 0 by {
        assert(name.contains(name[k - a - 1]));
    }
    lemma_zero_at(msg, 0, a);
    lemma_zero_at(msg, a + 1, b);
    assert(msg.subrange(a + 1, b) =~= name);
    assert(msg.subrange(b + 1, msg.len() as int) =~= password);
}

/// The mechanisms of SCRAM go by their names.
pub proof fn law_mechanisms_go_by_name(mechanism: Seq<char>)
    ensures
        scram_variant(mechanism) == Some(ScramVariant::Sha512) <==> mechanism == "SCRAM-SHA512"@,
        scram_variant(mechanism) == Some(ScramVariant::Sha256) <==> mechanism == "SCRAM-SHA256"@,
        mechanism == "PLAIN"@ ==> scram_variant(mechanism) is None,
{
    reveal_strlit("SCRAM-SHA512");
    reveal_strlit("SCRAM-SHA256");
    reveal_strlit("PLAIN");
    assert("SCRAM-SHA512"@[9] == '5' && "SCRAM-SHA256"@[9] == '2');
    assert("PLAIN"@.len() == 5 && "SCRAM-SHA512"@.len() == 12 && "SCRAM-SHA256"@.len() == 12);
}

/// A client is logged in by a PLAIN message, and by SCRAM only after the second step: its first
/// message is answered with the order to go on and changes nothing but the handshake.
pub proof fn law_logins_need_their_steps(
    req: Request,
    before: ConnectionState,
    after: ConnectionState,
    resp: ResponseView,
    server_nonce: Seq<char>,
    salt: Seq<u8>,
)
    requires
        answers_auth(req, before, after, resp, server_nonce, salt),
    ensures
        ({
            let mechanism = lossy_text(req.key@);
            let scram = mechanism == "SCRAM-SHA512"@ || mechanism == "SCRAM-SHA256"@;
            let code = resp.header.vbucket_or_status;
            &&& resp.header.opaque == req.header.opaque
            &&& mechanism == "PLAIN"@ ==> after.authenticated && code == Status::Success.code()
            &&& mechanism != "PLAIN"@ ==> after.authenticated == before.authenticated && after.username
                == before.username
            &&& scram && is_client_first(req.value@) ==> code == Status::AuthContinue.code()
                && after.scram_state is Some && resp.value == encode_utf8(
                after.scram_state->0.server_first@,
            )
            &&& mechanism != "PLAIN"@ && !(scram && is_client_first(req.value@)) ==> code
                == Status::AuthError.code() && after == before
        }),
{
    law_mechanisms_go_by_name(lossy_text(req.key@));
}

/// An observer is told the vBucket, and that it has neither failed over nor any sequence number.
pub proof fn law_observers_are_told_the_vbucket(vb: u16)
    ensures
        observed(vb).len() == 27,
        observed(vb)[0] == 0,
        be_value(observed(vb).subrange(1, 3)) == vb,
{
    crate::be_bytes::lemma_fits(0, vb, 0, 0);
    crate::be_bytes::lemma_be_round_trip(vb as nat, 2);
    crate::be_bytes::lemma_be_bytes_len(0, 8);
    assert(observed(vb).subrange(1, 3) =~= be_bytes(vb as nat, 2));
}

/// A line of statistics is a success with its name as the key and its figure as the value.
pub proof fn law_statistics_have_name_and_value(req: Request, key: Seq<char>, value: Seq<char>)
    ensures
        stat_line(req, key, value).key == encode_utf8(key),
        stat_line(req, key, value).value == encode_utf8(value),
        stat_line(req, key, value).extras.len() == 0,
        stat_line(req, key, value).header.vbucket_or_status == 0,
        stat_line(req, key, value).header.opaque == req.header.opaque,
        stat_line(req, key, value).header.opcode == req.header.opcode,
{
}

/// The manifest lists the scopes of a bucket in their order, each with its name and its collections in
/// theirs, with commas between them; without scopes it has the default one.
pub proof fn law_manifests_list_scopes_and_collections(
    scopes: Seq<ScopeEntry>,
    scope: ScopeEntry,
    names: Seq<String>,
    name: String,
)
    ensures
        collections_json(seq![name], 1) == "{\"maxTTL\":0,\"name\":"@ + json_quoted(name@)
            + ",\"uid\":\"0\"}"@,
        names.len() > 0 ==> collections_json(names.push(name), names.len() as int + 1)
            == collections_json(names, names.len() as int) + ","@ + collections_json(seq![name], 1),
        scope_json(scope) == "{\"collections\":["@ + collections_json(
            scope.collections@,
            scope.collections@.len() as int,
        ) + "],\"name\":"@ + json_quoted(scope.name@) + ",\"uid\":\"0\"}"@,
        scopes_json(seq![scope], 1) == scope_json(scope),
        scopes.len() > 0 ==> scopes_json(scopes.push(scope), scopes.len() as int + 1) == scopes_json(
            scopes,
            scopes.len() as int,
        ) + ","@ + scope_json(scope),
        scopes.len() > 0 ==> manifest_json(scopes) == "{\"scopes\":["@ + scopes_json(
            scopes,
            scopes.len() as int,
        ) + "],\"uid\":\"0\"}"@,
        scopes.len() == 0 ==> manifest_json(scopes)
            == "{\"scopes\":[{\"collections\":[{\"maxTTL\":0,\"name\":\"_default\",\"uid\":\"0\"}],\"name\":\"_default\",\"uid\":\"0\"}],\"uid\":\"0\"}"@,
{
    lemma_collections(names, names.push(name), names.len() as int);
    lemma_scopes(scopes, scopes.push(scope), scopes.len() as int);
}

proof fn lemma_collections(a: Seq<String>, b: Seq<String>, k: int)
    requires
        k <= a.len(),
        k <= b.len(),
        forall|i: int| 0 <= i < k ==> a[i] == b[i],
    ensures
        collections_json(a, k) == collections_json(b, k),
    decreases k,
{
    if k > 0 {
        lemma_collections(a, b, k - 1);
    }
}

proof fn lemma_scopes(a: Seq<ScopeEntry>, b: Seq<ScopeEntry>, k: int)
    requires
        k <= a.len(),
        k <= b.len(),
        forall|i: int| 0 <= i < k ==> a[i] == b[i],
    ensures
        scopes_json(a, k) == scopes_json(b, k),
    decreases k,
{
    if k > 0 {
        lemma_scopes(a, b, k - 1);
    }
}

/// A PLAIN message with one zero byte holds a name and no password, and one without any neither: the
/// name is then that of nobody.
pub proof fn law_plain_messages_need_their_zeros(who: Seq<u8>, name: Seq<u8>)
    requires
        !who.contains(0),
        !name.contains(0),
    ensures
        plain_username(who) == "anonymous"@,
        plain_password(who).len() == 0,
        plain_username(who + seq![0u8] + name) == lossy_text(name),
        plain_password(who + seq![0u8] + name).len() == 0,
{
    let a = who.len() as int;
    assert forall|k: int| 0 <= k < a implies who[k] != 0 by {
        assert(who.contains(who[k]));
    }
    lemma_zero_at(who, 0, a);
    let msg = who + seq![0u8] + name;
    let n = msg.len() as int;
    assert forall|k: int| 0 <= k < a implies msg[k] != 0 by {
        assert(msg[k] == who[k]);
    }
    assert forall|k: int| a + 1 <= k < n implies msg[k] != 0 by {
        assert(name.contains(name[k - a - 1]));
    }
    lemma_zero_at(msg, 0, a);
    lemma_zero_at(msg, a + 1, n);
    assert(msg.subrange(a + 1, n) =~= name);
}

} // verus!
