//! Sub-document operations: lookups and mutations of paths inside a document.

use crate::be_bytes::{
    be_bytes, be_value, lemma_be_round_trip, lemma_fits, push_be, push_bytes, read_u16, read_u32,
    slice_of,
};
use crate::error::NosqlError;
use crate::json_text::{
    integer_of_json, json_integer, json_normal, lossy_text, normalise_json,
    text_from_utf8_lossy,
};
use crate::memcached::handler::{Found, KvHandler, Outcome, SUBDOC_FLAG_XATTR};
use crate::memcached::protocol::{opcode_of, Opcode, Request, Response, ResponseView, Status};
use crate::text::{dec, dec_text, push_char};
use vstd::prelude::*;
use vstd::string::*;
use vstd::utf8::encode_utf8;

verus! {

/// A lookup of one path.
#[derive(Debug)]
pub struct SubdocLookupSpec {
    pub opcode: u8,
    pub flags: u8,
    pub path: String,
}

/// A mutation of one path. The value is a JSON text.
#[derive(Debug)]
pub struct SubdocMutationSpec {
    pub opcode: u8,
    pub flags: u8,
    pub path: String,
    pub value: String,
}

/// What a [`SubdocLookupSpec`] stands for.
#[verifier::ext_equal]
pub struct LookupView {
    pub opcode: u8,
    pub flags: u8,
    pub path: Seq<char>,
}

/// What a [`SubdocMutationSpec`] stands for.
#[verifier::ext_equal]
pub struct MutationView {
    pub opcode: u8,
    pub flags: u8,
    pub path: Seq<char>,
    pub value: Seq<char>,
}

/// Whether the flags ask for an extended attribute.
pub open spec fn asks_xattr(flags: u8) -> bool {
    (flags / 4) % 2 == 1
}

fn xattr_bit(flags: u8) -> (r: bool)
    ensures
        r == asks_xattr(flags),
{
    assert((flags & 0x04 != 0) == ((flags / 4) % 2 == 1)) by (bit_vector);
    flags & SUBDOC_FLAG_XATTR != 0
}

impl View for SubdocLookupSpec {
    type V = LookupView;

    open spec fn view(&self) -> LookupView {
        LookupView { opcode: self.opcode, flags: self.flags, path: self.path@ }
    }
}

impl SubdocLookupSpec {
    /// Whether the path is one of an extended attribute.
    pub fn is_xattr(&self) -> (r: bool)
        ensures
            r == asks_xattr(self.flags),
    {
        xattr_bit(self.flags)
    }
}

impl View for SubdocMutationSpec {
    type V = MutationView;

    open spec fn view(&self) -> MutationView {
        MutationView {
            opcode: self.opcode,
            flags: self.flags,
            path: self.path@,
            value: self.value@,
        }
    }
}

impl SubdocMutationSpec {
    /// Whether the path is one of an extended attribute.
    pub fn is_xattr(&self) -> (r: bool)
        ensures
            r == asks_xattr(self.flags),
    {
        xattr_bit(self.flags)
    }
}

/// What a list of lookups stands for.
pub open spec fn lookup_views(v: Seq<SubdocLookupSpec>) -> Seq<LookupView> {
    Seq::new(v.len(), |i: int| v[i]@)
}

/// What a list of mutations stands for.
pub open spec fn mutation_views(v: Seq<SubdocMutationSpec>) -> Seq<MutationView> {
    Seq::new(v.len(), |i: int| v[i]@)
}

/// The lookups that stand in bytes from place `at` on: opcode, flags, length of the path, path.
/// Reading ends where the bytes do, or where a path would reach beyond them.
pub open spec fn lookups_in(data: Seq<u8>, at: int) -> Seq<LookupView>
    decreases data.len() - at,
{
    if at < 0 || at + 4 > data.len() {
        Seq::empty()
    } else {
        let path_len = be_value(data.subrange(at + 2, at + 4)) as int;
        let end = at + 4 + path_len;
        if path_len < 0 || end > data.len() {
            Seq::empty()
        } else {
            seq![
                LookupView {
                    opcode: data[at],
                    flags: data[at + 1],
                    path: lossy_text(data.subrange(at + 4, end)),
                },
            ] + lookups_in(data, end)
        }
    }
}

/// The JSON text of a mutation's value: null where there is none or it is not JSON.
pub open spec fn mutation_value(bytes: Seq<u8>) -> Seq<char> {
    if bytes.len() == 0 {
        "null"@
    } else {
        match json_normal(bytes) {
            Some(text) => text,
            None => "null"@,
        }
    }
}

/// The mutations that stand in bytes from place `at` on: opcode, flags, length of the path, length
/// of the value, path, value.
pub open spec fn mutations_in(data: Seq<u8>, at: int) -> Seq<MutationView>
    decreases data.len() - at,
{
    if at < 0 || at + 8 > data.len() {
        Seq::empty()
    } else {
        let path_len = be_value(data.subrange(at + 2, at + 4)) as int;
        let value_len = be_value(data.subrange(at + 4, at + 8)) as int;
        let path_end = at + 8 + path_len;
        let end = path_end + value_len;
        if path_len < 0 || value_len < 0 || end > data.len() {
            Seq::empty()
        } else {
            seq![
                MutationView {
                    opcode: data[at],
                    flags: data[at + 1],
                    path: lossy_text(data.subrange(at + 8, path_end)),
                    value: mutation_value(data.subrange(path_end, end)),
                },
            ] + mutations_in(data, end)
        }
    }
}

/// Reads the lookups of a multi-lookup request.
pub fn parse_subdoc_lookup_specs(data: &[u8]) -> (r: Vec<SubdocLookupSpec>)
    ensures
        lookup_views(r@) == lookups_in(data@, 0),
{
    let total: usize = data.len();
    let mut specs: Vec<SubdocLookupSpec> = Vec::new();
    let mut offset: usize = 0;
    assert(lookup_views(specs@) + lookups_in(data@, 0) =~= lookups_in(data@, 0));
    while total - offset >= 4
        invariant
            offset <= total,
            total == data@.len(),
            lookup_views(specs@) + lookups_in(data@, offset as int) == lookups_in(data@, 0),
        decreases total - offset,
    {
        let opcode: u8 = data[offset];
        let flags: u8 = data[offset + 1];
        let path_len: usize = read_u16(data, offset + 2) as usize;
        let ghost at = offset as int;
        let ghost prior = specs@;
        let start: usize = offset + 4;
        if path_len > total - start {
            assert(lookups_in(data@, at) =~= Seq::<LookupView>::empty());
            assert(lookup_views(specs@) =~= lookups_in(data@, 0));
            return specs;
        }
        let path_bytes = slice_of(data, start, start + path_len);
        let path = text_from_utf8_lossy(path_bytes.as_slice());
        specs.push(SubdocLookupSpec { opcode, flags, path });
        offset = start + path_len;
        proof {
            let item = specs@.last()@;
            assert(lookups_in(data@, at) == seq![item] + lookups_in(data@, offset as int));
            assert(lookup_views(specs@) =~= lookup_views(prior) + seq![item]);
            assert(lookup_views(specs@) + lookups_in(data@, offset as int) =~= lookup_views(prior)
                + lookups_in(data@, at));
        }
    }
    assert(lookups_in(data@, offset as int) =~= Seq::<LookupView>::empty());
    assert(lookup_views(specs@) =~= lookups_in(data@, 0));
    specs
}

/// Reads the mutations of a multi-mutation request.
pub fn parse_subdoc_mutation_specs(data: &[u8]) -> (r: Vec<SubdocMutationSpec>)
    ensures
        mutation_views(r@) == mutations_in(data@, 0),
{
    let total: usize = data.len();
    let mut specs: Vec<SubdocMutationSpec> = Vec::new();
    let mut offset: usize = 0;
    assert(mutation_views(specs@) + mutations_in(data@, 0) =~= mutations_in(data@, 0));
    while total - offset >= 8
        invariant
            offset <= total,
            total == data@.len(),
            mutation_views(specs@) + mutations_in(data@, offset as int) == mutations_in(data@, 0),
        decreases total - offset,
    {
        let opcode: u8 = data[offset];
        let flags: u8 = data[offset + 1];
        let path_len: u64 = read_u16(data, offset + 2) as u64;
        let value_len: u64 = read_u32(data, offset + 4) as u64;
        let ghost at = offset as int;
        let ghost prior = specs@;
        let start: usize = offset + 8;
        if path_len + value_len > (total - start) as u64 {
            assert(mutations_in(data@, at) =~= Seq::<MutationView>::empty());
            assert(mutation_views(specs@) =~= mutations_in(data@, 0));
            return specs;
        }
        let path_end: usize = start + path_len as usize;
        let end: usize = path_end + value_len as usize;
        let path_bytes = slice_of(data, start, path_end);
        let path = text_from_utf8_lossy(path_bytes.as_slice());
        let value_bytes = slice_of(data, path_end, end);
        let value = if value_bytes.len() > 0 {
            match normalise_json(value_bytes.as_slice()) {
                Some(text) => text,
                None => "null".to_owned(),
            }
        } else {
            "null".to_owned()
        };
        specs.push(SubdocMutationSpec { opcode, flags, path, value });
        offset = end;
        proof {
            let item = specs@.last()@;
            assert(mutations_in(data@, at) == seq![item] + mutations_in(data@, offset as int));
            assert(mutation_views(specs@) =~= mutation_views(prior) + seq![item]);
            assert(mutation_views(specs@) + mutations_in(data@, offset as int)
                =~= mutation_views(prior) + mutations_in(data@, at));
        }
    }
    assert(mutations_in(data@, offset as int) =~= Seq::<MutationView>::empty());
    assert(mutation_views(specs@) =~= mutations_in(data@, 0));
    specs
}

// ---- Lookups ----

/// What a lookup asks of the bucket.
#[derive(Debug, Clone, Copy, PartialEq, Eq, Structural)]
pub enum LookupQuery {
    XattrGet,
    XattrExists,
    Get,
    Exists,
    /// The number of items at the path.
    Count,
    /// No such lookup is known.
    Unknown,
}

/// What the bucket answers to a lookup.
#[derive(Debug)]
pub enum LookupAnswer {
    /// The JSON text of the value at the path.
    Value(String),
    Present(bool),
    Count(u64),
    PathNotFound,
    Failed,
}

/// What a lookup asks of the bucket.
pub open spec fn query_of(spec_view: LookupView) -> LookupQuery {
    if asks_xattr(spec_view.flags) {
        if spec_view.opcode == 0xC5 {
            LookupQuery::XattrGet
        } else if spec_view.opcode == 0xC6 {
            LookupQuery::XattrExists
        } else {
            LookupQuery::Unknown
        }
    } else {
        if spec_view.opcode == 0xC5 {
            LookupQuery::Get
        } else if spec_view.opcode == 0xC6 {
            LookupQuery::Exists
        } else if spec_view.opcode == 0xD2 {
            LookupQuery::Count
        } else {
            LookupQuery::Unknown
        }
    }
}

/// What a lookup asks of the bucket.
pub fn lookup_query(item: &SubdocLookupSpec) -> (r: LookupQuery)
    ensures
        r == query_of(item@),
{
    if item.is_xattr() {
        if item.opcode == 0xC5 {
            LookupQuery::XattrGet
        } else if item.opcode == 0xC6 {
            LookupQuery::XattrExists
        } else {
            LookupQuery::Unknown
        }
    } else {
        if item.opcode == 0xC5 {
            LookupQuery::Get
        } else if item.opcode == 0xC6 {
            LookupQuery::Exists
        } else if item.opcode == 0xD2 {
            LookupQuery::Count
        } else {
            LookupQuery::Unknown
        }
    }
}

/// Whether an answer is one that can come to a query.
pub open spec fn answers_query(query: LookupQuery, answer: LookupAnswer) -> bool {
    match answer {
        LookupAnswer::Value(_) => query == LookupQuery::XattrGet || query == LookupQuery::Get,
        LookupAnswer::Present(_) => query == LookupQuery::XattrExists || query
            == LookupQuery::Exists,
        LookupAnswer::Count(_) => query == LookupQuery::Count,
        LookupAnswer::PathNotFound => query == LookupQuery::XattrGet || query == LookupQuery::Get
            || query == LookupQuery::Count,
        LookupAnswer::Failed => true,
    }
}

/// The status of a lookup.
pub open spec fn lookup_status(query: LookupQuery, answer: LookupAnswer) -> Status {
    if query == LookupQuery::Unknown {
        Status::UnknownCommand
    } else {
        match answer {
            LookupAnswer::Value(_) | LookupAnswer::Count(_) => Status::Success,
            LookupAnswer::Present(yes) => if yes {
                Status::Success
            } else {
                Status::SubdocPathNotFound
            },
            LookupAnswer::PathNotFound => Status::SubdocPathNotFound,
            LookupAnswer::Failed => Status::InternalError,
        }
    }
}

/// The value that a lookup gives.
pub open spec fn lookup_value(query: LookupQuery, answer: LookupAnswer) -> Seq<u8> {
    if query == LookupQuery::Unknown {
        Seq::empty()
    } else {
        match answer {
            LookupAnswer::Value(text) => encode_utf8(text@),
            LookupAnswer::Count(n) => encode_utf8(dec(n as nat)),
            _ => Seq::empty(),
        }
    }
}

/// The bytes that tell of one lookup: status, length of the value, value.
pub open spec fn lookup_frame(query: LookupQuery, answer: LookupAnswer) -> Seq<u8> {
    let value = lookup_value(query, answer);
    be_bytes(lookup_status(query, answer).code() as nat, 2) + be_bytes(value.len(), 4) + value
}

/// The bytes that tell of the first `k` lookups.
pub open spec fn lookup_frames(specs: Seq<LookupView>, answers: Seq<LookupAnswer>, k: int) -> Seq<u8>
    decreases k,
{
    if k <= 0 {
        Seq::empty()
    } else {
        lookup_frames(specs, answers, k - 1) + lookup_frame(query_of(specs[k - 1]), answers[k - 1])
    }
}

/// Whether the first `k` lookups all succeeded.
pub open spec fn all_found(specs: Seq<LookupView>, answers: Seq<LookupAnswer>, k: int) -> bool {
    forall|i: int|
        0 <= i < k ==> lookup_status(query_of(#[trigger] specs[i]), answers[i]) == Status::Success
}

/// The response to a multi-lookup, from the lookup of the document and the answers to each path.
pub open spec fn multi_lookup_response(
    req: Request,
    found: Outcome<Found>,
    answers: Seq<LookupAnswer>,
) -> ResponseView {
    let op = Opcode::SubdocMultiLookup;
    let opaque = req.header.opaque;
    let specs = lookups_in(req.value@, 0);
    if req.key_text().len() == 0 {
        ResponseView::error(op, Status::InvalidArguments, opaque, "Empty key"@)
    } else {
        match found {
            Outcome::NoBucket => ResponseView::error(
                op,
                Status::NoBucket,
                opaque,
                "Bucket not found"@,
            ),
            Outcome::Done(f) => ResponseView::plain(
                op,
                if all_found(specs, answers, specs.len() as int) {
                    Status::Success
                } else {
                    Status::SubdocPathNotFound
                },
                opaque,
            ).cas(f.doc.cas).with_value(lookup_frames(specs, answers, specs.len() as int)),
            Outcome::Failed(e) => match e {
                NosqlError::DocumentNotFound(_) => ResponseView::plain(
                    op,
                    Status::KeyNotFound,
                    opaque,
                ),
                _ => ResponseView::error(op, Status::InternalError, opaque, e.message()),
            },
        }
    }
}

/// Appends the bytes that tell of one lookup; returns whether it succeeded.
fn push_lookup(out: &mut Vec<u8>, query: LookupQuery, answer: &LookupAnswer) -> (r: bool)
    ensures
        final(out)@ == old(out)@ + lookup_frame(query, *answer),
        r == (lookup_status(query, *answer) == Status::Success),
{
    let ghost start = out@;
    let mut value: Vec<u8> = Vec::new();
    let mut status = Status::UnknownCommand;
    if query != LookupQuery::Unknown {
        match answer {
            LookupAnswer::Value(text) => {
                value = text.as_str().as_bytes_vec();
                status = Status::Success;
            },
            LookupAnswer::Present(yes) => {
                status = if *yes {
                    Status::Success
                } else {
                    Status::SubdocPathNotFound
                };
            },
            LookupAnswer::Count(n) => {
                value = dec_text(*n).as_str().as_bytes_vec();
                status = Status::Success;
            },
            LookupAnswer::PathNotFound => {
                status = Status::SubdocPathNotFound;
            },
            LookupAnswer::Failed => {
                status = Status::InternalError;
            },
        }
    }
    assert(status == lookup_status(query, *answer));
    assert(value@ =~= lookup_value(query, *answer));
    push_be(out, status.to_u16() as u64, 2);
    push_be(out, value.len() as u64, 4);
    push_bytes(out, value.as_slice());
    assert(out@ =~= start + lookup_frame(query, *answer));
    status == Status::Success
}

// ---- Mutations ----

/// What a mutation asks of the bucket.
#[derive(Debug, Clone, Copy, PartialEq, Eq, Structural)]
pub enum MutationCall {
    XattrUpsert,
    XattrRemove,
    DictAdd,
    DictUpsert,
    Delete,
    Replace,
    ArrayPushLast,
    ArrayPushFirst,
    Counter(i64),
    /// No such mutation is known.
    Unknown,
}

/// What a mutation asks of the bucket.
pub open spec fn call_of(m: MutationView) -> MutationCall {
    if asks_xattr(m.flags) {
        if m.opcode == 0xC9 {
            MutationCall::XattrRemove
        } else {
            MutationCall::XattrUpsert
        }
    } else if m.opcode == 0xC7 {
        MutationCall::DictAdd
    } else if m.opcode == 0xC8 {
        MutationCall::DictUpsert
    } else if m.opcode == 0xC9 {
        MutationCall::Delete
    } else if m.opcode == 0xCA {
        MutationCall::Replace
    } else if m.opcode == 0xCB {
        MutationCall::ArrayPushLast
    } else if m.opcode == 0xCC {
        MutationCall::ArrayPushFirst
    } else if m.opcode == 0xCF {
        MutationCall::Counter(
            match json_integer(m.value) {
                Some(n) => n,
                None => 1,
            },
        )
    } else {
        MutationCall::Unknown
    }
}

/// What a mutation asks of the bucket.
pub fn mutation_call(item: &SubdocMutationSpec) -> (r: MutationCall)
    ensures
        r == call_of(item@),
{
    if item.is_xattr() {
        if item.opcode == 0xC9 {
            MutationCall::XattrRemove
        } else {
            MutationCall::XattrUpsert
        }
    } else if item.opcode == 0xC7 {
        MutationCall::DictAdd
    } else if item.opcode == 0xC8 {
        MutationCall::DictUpsert
    } else if item.opcode == 0xC9 {
        MutationCall::Delete
    } else if item.opcode == 0xCA {
        MutationCall::Replace
    } else if item.opcode == 0xCB {
        MutationCall::ArrayPushLast
    } else if item.opcode == 0xCC {
        MutationCall::ArrayPushFirst
    } else if item.opcode == 0xCF {
        MutationCall::Counter(
            match integer_of_json(item.value.as_str()) {
                Some(n) => n,
                None => 1,
            },
        )
    } else {
        MutationCall::Unknown
    }
}

/// Two upper-case hexadecimal digits.
pub open spec fn upper_hex(b: u8) -> Seq<char> {
    seq![upper_digit(b as int / 16), upper_digit(b as int % 16)]
}

/// The hexadecimal digit, in upper case, that stands for `d`.
pub open spec fn upper_digit(d: int) -> char {
    if d < 10 {
        (48 + d) as u8 as char
    } else {
        (55 + d) as u8 as char
    }
}

fn upper_digit_of(d: u8) -> (r: char)
    requires
        d < 16,
    ensures
        r == upper_digit(d as int),
{
    if d < 10 {
        (48 + d) as char
    } else {
        (55 + d) as char
    }
}

/// The message about a mutation that is not known.
pub open spec fn unknown_mutation(opcode: u8) -> Seq<char> {
    "Unknown subdoc mutation opcode 0x"@ + upper_hex(opcode)
}

/// The bytes that name the mutation that failed, and how.
pub open spec fn failed_at(i: int, status: Status) -> Seq<u8> {
    seq![(i % 256) as u8] + be_bytes(status.code() as nat, 2)
}

/// The response to a mutation that failed, the `i`-th of the request.
pub open spec fn mutation_failure(req: Request, i: int, e: NosqlError) -> ResponseView {
    let op = Opcode::SubdocMultiMutation;
    let opaque = req.header.opaque;
    match e {
        NosqlError::SubdocPathNotFound(_) => ResponseView::plain(
            op,
            Status::SubdocPathNotFound,
            opaque,
        ).with_value(failed_at(i, Status::SubdocPathNotFound)),
        NosqlError::SubdocPathExists(_) => ResponseView::plain(
            op,
            Status::SubdocPathExists,
            opaque,
        ).with_value(failed_at(i, Status::SubdocPathExists)),
        NosqlError::DocumentNotFound(_) => ResponseView::plain(op, Status::KeyNotFound, opaque),
        NosqlError::CasMismatch { .. } => ResponseView::plain(op, Status::KeyExists, opaque),
        _ => ResponseView::error(op, Status::InternalError, opaque, e.message()),
    }
}

/// What became of one mutation: the CAS of the changed document, or an error.
pub type MutationResult = std::result::Result<u64, NosqlError>;

/// Whether there is a result for every mutation that is carried out: they are carried out in turn
/// until one fails or is not known.
pub open spec fn covers(specs: Seq<MutationView>, results: Seq<MutationResult>, i: int) -> bool
    decreases specs.len() - i,
{
    if i < 0 || i >= specs.len() || call_of(specs[i]) == MutationCall::Unknown {
        true
    } else {
        i < results.len() && (results[i] is Ok ==> covers(specs, results, i + 1))
    }
}

/// The response to the mutations from the `i`-th on, when the last one before gave `last_cas`.
pub open spec fn mutations_response(
    req: Request,
    specs: Seq<MutationView>,
    results: Seq<MutationResult>,
    i: int,
    last_cas: u64,
) -> ResponseView
    decreases specs.len() - i,
{
    let op = Opcode::SubdocMultiMutation;
    let opaque = req.header.opaque;
    if i < 0 || i >= specs.len() {
        ResponseView::plain(op, Status::Success, opaque).cas(last_cas)
    } else if call_of(specs[i]) == MutationCall::Unknown {
        ResponseView::error(op, Status::UnknownCommand, opaque, unknown_mutation(specs[i].opcode))
    } else {
        match results[i] {
            Ok(cas) => mutations_response(req, specs, results, i + 1, cas),
            Err(e) => mutation_failure(req, i, e),
        }
    }
}

/// The response to a multi-mutation.
pub open spec fn multi_mutation_response(
    req: Request,
    has_bucket: bool,
    results: Seq<MutationResult>,
) -> ResponseView {
    let op = Opcode::SubdocMultiMutation;
    let opaque = req.header.opaque;
    if req.key_text().len() == 0 {
        ResponseView::error(op, Status::InvalidArguments, opaque, "Empty key"@)
    } else if !has_bucket {
        ResponseView::error(op, Status::NoBucket, opaque, "Bucket not found"@)
    } else {
        mutations_response(req, mutations_in(req.value@, 0), results, 0, 0)
    }
}

impl KvHandler {
    /// The response to a SUBDOC_MULTI_LOOKUP: `found` is the document, `answers` what the bucket
    /// says of each path.
    pub fn handle_subdoc_multi_lookup(
        &self,
        req: &Request,
        found: &Outcome<Found>,
        answers: &Vec<LookupAnswer>,
    ) -> (r: Response)
        requires
            *found is Done ==> answers@.len() == lookups_in(req.value@, 0).len(),
            forall|i: int|
                0 <= i < answers@.len() && i < lookups_in(req.value@, 0).len() ==> answers_query(
                    query_of(lookups_in(req.value@, 0)[i]),
                    #[trigger] answers@[i],
                ),
        ensures
            r@ == multi_lookup_response(*req, *found, answers@),
    {
        let op = Opcode::SubdocMultiLookup;
        let opaque: u32 = req.header.opaque;
        if req.key_str().as_str().is_empty() {
            return Response::error(op, Status::InvalidArguments, opaque, "Empty key");
        }
        match found {
            Outcome::NoBucket => Response::error(op, Status::NoBucket, opaque, "Bucket not found"),
            Outcome::Done(f) => {
                let specs = parse_subdoc_lookup_specs(req.value.as_slice());
                let ghost views = lookups_in(req.value@, 0);
                assert(lookup_views(specs@).len() == specs@.len());
                let mut value: Vec<u8> = Vec::new();
                let mut all_ok = true;
                let mut k: usize = 0;
                assert(value@ =~= lookup_frames(views, answers@, 0));
                while k < specs.len()
                    invariant
                        k <= specs@.len(),
                        specs@.len() == answers@.len(),
                        views == lookup_views(specs@),
                        value@ == lookup_frames(views, answers@, k as int),
                        all_ok == all_found(views, answers@, k as int),
                    decreases specs@.len() - k,
                {
                    assert(views[k as int] == specs@[k as int]@);
                    let query = lookup_query(&specs[k]);
                    let ok = push_lookup(&mut value, query, &answers[k]);
                    proof {
                        if all_ok && ok {
                            assert(all_found(views, answers@, k + 1));
                        }
                        if !ok {
                            assert(lookup_status(query_of(views[k as int]), answers@[k as int])
                                != Status::Success);
                        }
                        if !all_ok {
                            let i = choose|i: int|
                                0 <= i < k && lookup_status(
                                    query_of(#[trigger] views[i]),
                                    answers@[i],
                                ) != Status::Success;
                            assert(lookup_status(query_of(views[i]), answers@[i])
                                != Status::Success);
                        }
                    }
                    all_ok = all_ok && ok;
                    k = k + 1;
                }
                let status = if all_ok {
                    Status::Success
                } else {
                    Status::SubdocPathNotFound
                };
                Response::new(op, status, opaque).with_cas(f.doc.cas).with_value(value)
            },
            Outcome::Failed(e) => match e {
                NosqlError::DocumentNotFound(_) => Response::new(op, Status::KeyNotFound, opaque),
                _ => Response::error(op, Status::InternalError, opaque, e.to_text().as_str()),
            },
        }
    }

    /// The response to a mutation that failed, the `i`-th of the request.
    fn mutation_failed(&self, req: &Request, i: usize, e: &NosqlError) -> (r: Response)
        ensures
            r@ == mutation_failure(*req, i as int, *e),
    {
        let op = Opcode::SubdocMultiMutation;
        let opaque: u32 = req.header.opaque;
        match e {
            NosqlError::SubdocPathNotFound(_) => {
                let mut val: Vec<u8> = Vec::new();
                val.push((i % 256) as u8);
                push_be(&mut val, Status::SubdocPathNotFound.to_u16() as u64, 2);
                assert(val@ =~= failed_at(i as int, Status::SubdocPathNotFound));
                Response::new(op, Status::SubdocPathNotFound, opaque).with_value(val)
            },
            NosqlError::SubdocPathExists(_) => {
                let mut val: Vec<u8> = Vec::new();
                val.push((i % 256) as u8);
                push_be(&mut val, Status::SubdocPathExists.to_u16() as u64, 2);
                assert(val@ =~= failed_at(i as int, Status::SubdocPathExists));
                Response::new(op, Status::SubdocPathExists, opaque).with_value(val)
            },
            NosqlError::DocumentNotFound(_) => Response::new(op, Status::KeyNotFound, opaque),
            NosqlError::CasMismatch { .. } => Response::new(op, Status::KeyExists, opaque),
            _ => Response::error(op, Status::InternalError, opaque, e.to_text().as_str()),
        }
    }

    /// The response to a SUBDOC_MULTI_MUTATION: `results` are those of the mutations that were
    /// carried out, one after the other until one failed or was not known.
    pub fn handle_subdoc_multi_mutation(
        &self,
        req: &Request,
        has_bucket: bool,
        results: &Vec<MutationResult>,
    ) -> (r: Response)
        requires
            has_bucket ==> covers(mutations_in(req.value@, 0), results@, 0),
        ensures
            r@ == multi_mutation_response(*req, has_bucket, results@),
    {
        let op = Opcode::SubdocMultiMutation;
        let opaque: u32 = req.header.opaque;
        if req.key_str().as_str().is_empty() {
            return Response::error(op, Status::InvalidArguments, opaque, "Empty key");
        }
        if !has_bucket {
            return Response::error(op, Status::NoBucket, opaque, "Bucket not found");
        }
        let specs = parse_subdoc_mutation_specs(req.value.as_slice());
        let ghost views = mutations_in(req.value@, 0);
        assert(mutation_views(specs@).len() == specs@.len());
        let mut last_cas: u64 = 0;
        let mut i: usize = 0;
        while i < specs.len()
            invariant
                i <= specs@.len(),
                op == Opcode::SubdocMultiMutation,
                opaque == req.header.opaque,
                views == mutation_views(specs@),
                covers(views, results@, i as int),
                mutations_response(*req, views, results@, 0, 0) == mutations_response(
                    *req,
                    views,
                    results@,
                    i as int,
                    last_cas,
                ),
                has_bucket,
                req.key_text().len() > 0,
                views == mutations_in(req.value@, 0),
            decreases specs@.len() - i,
        {
            assert(views[i as int] == specs@[i as int]@);
            if mutation_call(&specs[i]) == MutationCall::Unknown {
                let mut msg = "Unknown subdoc mutation opcode 0x".to_owned();
                let ghost head = msg@;
                push_char(&mut msg, upper_digit_of(specs[i].opcode / 16));
                push_char(&mut msg, upper_digit_of(specs[i].opcode % 16));
                assert(msg@ =~= unknown_mutation(specs@[i as int].opcode));
                return Response::error(op, Status::UnknownCommand, opaque, msg.as_str());
            }
            match &results[i] {
                Ok(cas) => {
                    last_cas = *cas;
                },
                Err(e) => {
                    return self.mutation_failed(req, i, e);
                },
            }
            i = i + 1;
        }
        Response::new(op, Status::Success, opaque).with_cas(last_cas)
    }
}

// ---- Laws ----

/// An extended attribute is asked for by the third-lowest bit of the flags.
pub proof fn law_xattrs_are_asked_for_by_a_bit(flags: u8)
    ensures
        asks_xattr(flags) <==> flags & 0x04 != 0,
{
    assert((flags & 0x04 != 0) == ((flags / 4) % 2 == 1)) by (bit_vector);
}

/// A mutation asks for what its opcode is called: the protocol's opcodes for paths inside a document
/// and the calls of the bucket go together, and other opcodes ask for nothing that is known. With the
/// bit for extended attributes the opcode for deletion removes one, and every other writes one.
pub proof fn law_mutations_ask_for_their_opcode(m: MutationView)
    ensures
        ({
            let op = opcode_of(m.opcode);
            let call = call_of(m);
            let plain = m.flags & 0x04 == 0;
            &&& plain ==> {
                &&& call == MutationCall::DictAdd <==> op == Opcode::SubdocDictAdd
                &&& call == MutationCall::DictUpsert <==> op == Opcode::SubdocDictUpsert
                &&& call == MutationCall::Delete <==> op == Opcode::SubdocDelete
                &&& call == MutationCall::Replace <==> op == Opcode::SubdocReplace
                &&& call == MutationCall::ArrayPushLast <==> op == Opcode::SubdocArrayPushLast
                &&& call == MutationCall::ArrayPushFirst <==> op == Opcode::SubdocArrayPushFirst
                &&& call is Counter <==> op == Opcode::SubdocCounter
                &&& call != MutationCall::XattrRemove && call != MutationCall::XattrUpsert
            }
            &&& !plain ==> (call == MutationCall::XattrRemove <==> op == Opcode::SubdocDelete)
            &&& !plain ==> (call == MutationCall::XattrUpsert <==> op != Opcode::SubdocDelete)
        }),
{
    law_xattrs_are_asked_for_by_a_bit(m.flags);
}

/// A counter inside a document changes by the integer in the mutation, or by one where there is none.
pub proof fn law_counters_inside_change_by_their_value(m: MutationView)
    requires
        opcode_of(m.opcode) == Opcode::SubdocCounter,
        m.flags & 0x04 == 0,
    ensures
        json_integer(m.value) is Some ==> call_of(m) == MutationCall::Counter(
            json_integer(m.value)->0,
        ),
        json_integer(m.value) is None ==> call_of(m) == MutationCall::Counter(1),
{
    law_xattrs_are_asked_for_by_a_bit(m.flags);
}

/// A lookup asks for what its opcode is called, of a path in the document or, with the bit for it, of
/// an extended attribute; only the former can be counted.
pub proof fn law_lookups_ask_for_their_opcode(m: LookupView)
    ensures
        ({
            let op = opcode_of(m.opcode);
            let query = query_of(m);
            let plain = m.flags & 0x04 == 0;
            &&& query == LookupQuery::Get <==> plain && op == Opcode::SubdocGet
            &&& query == LookupQuery::Exists <==> plain && op == Opcode::SubdocExists
            &&& query == LookupQuery::Count <==> plain && op == Opcode::SubdocGetCount
            &&& query == LookupQuery::XattrGet <==> !plain && op == Opcode::SubdocGet
            &&& query == LookupQuery::XattrExists <==> !plain && op == Opcode::SubdocExists
        }),
{
    law_xattrs_are_asked_for_by_a_bit(m.flags);
}

/// The lookups of a request are read one after the other: two bytes of opcode and flags, two of the
/// length of the path, the path, and the rest in the same way.
pub proof fn law_lookups_are_read_in_turn(
    before: Seq<u8>,
    opcode: u8,
    flags: u8,
    path: Seq<u8>,
    rest: Seq<u8>,
)
    requires
        path.len() <= u16::MAX,
    ensures
        ({
            let item = seq![opcode, flags] + be_bytes(path.len(), 2) + path;
            let data = before + item + rest;
            lookups_in(data, before.len() as int) == seq![
                LookupView { opcode, flags, path: lossy_text(path) },
            ] + lookups_in(data, (before.len() + item.len()) as int)
        }),
        lookups_in(before, before.len() as int) == Seq::<LookupView>::empty(),
{
    let item = seq![opcode, flags] + be_bytes(path.len(), 2) + path;
    let data = before + item + rest;
    let at = before.len() as int;
    lemma_fits(0, path.len() as u16, 0, 0);
    lemma_be_round_trip(path.len(), 2);
    assert(data[at] == item[0] && data[at + 1] == item[1]);
    assert(data.subrange(at + 2, at + 4) =~= be_bytes(path.len(), 2));
    assert(data.subrange(at + 4, at + 4 + path.len()) =~= path);
}

/// The mutations of a request are read one after the other: two bytes of opcode and flags, two of the
/// length of the path, four of the length of the value, path and value, and the rest in the same way.
pub proof fn law_mutations_are_read_in_turn(
    before: Seq<u8>,
    opcode: u8,
    flags: u8,
    path: Seq<u8>,
    value: Seq<u8>,
    rest: Seq<u8>,
)
    requires
        path.len() <= u16::MAX,
        value.len() <= u32::MAX,
    ensures
        ({
            let item = seq![opcode, flags] + be_bytes(path.len(), 2) + be_bytes(value.len(), 4)
                + path + value;
            let data = before + item + rest;
            let first = mutations_in(data, before.len() as int)[0];
            &&& mutations_in(data, before.len() as int) == seq![first] + mutations_in(
                data,
                (before.len() + item.len()) as int,
            )
            &&& first.opcode == opcode
            &&& first.flags == flags
            &&& first.path == lossy_text(path)
            &&& value.len() > 0 && json_normal(value) is Some ==> first.value == json_normal(
                value,
            )->0
            &&& value.len() == 0 || json_normal(value) is None ==> first.value == "null"@
        }),
        mutations_in(before, before.len() as int) == Seq::<MutationView>::empty(),
{
    let item = seq![opcode, flags] + be_bytes(path.len(), 2) + be_bytes(value.len(), 4) + path
        + value;
    let data = before + item + rest;
    let at = before.len() as int;
    lemma_fits(0, path.len() as u16, value.len() as u32, 0);
    lemma_be_round_trip(path.len(), 2);
    lemma_be_round_trip(value.len(), 4);
    assert(data[at] == item[0] && data[at + 1] == item[1]);
    assert(data.subrange(at + 2, at + 4) =~= be_bytes(path.len(), 2));
    assert(data.subrange(at + 4, at + 8) =~= be_bytes(value.len(), 4));
    let end = at + 8 + path.len();
    assert(data.subrange(at + 8, end) =~= path);
    assert(data.subrange(end, end + value.len()) =~= value);
    let first = mutations_in(data, at)[0];
    assert(mutations_in(data, at) =~= seq![first] + mutations_in(data, at + item.len()));
}

/// A path that is found gives its value and success, one that is not gives nothing and says so: the
/// bytes of a lookup are its status, the length of the value and the value.
pub proof fn law_lookups_tell_what_was_found(query: LookupQuery, answer: LookupAnswer)
    requires
        query != LookupQuery::Unknown,
        lookup_value(query, answer).len() <= u32::MAX,
    ensures
        ({
            let frame = lookup_frame(query, answer);
            let status = be_value(frame.subrange(0, 2));
            let value = frame.subrange(6, frame.len() as int);
            &&& frame.len() >= 6
            &&& be_value(frame.subrange(2, 6)) == value.len()
            &&& answer is Value ==> status == Status::Success.code() && value == encode_utf8(
                answer->Value_0@,
            )
            &&& answer is Count ==> status == Status::Success.code() && value == encode_utf8(
                dec(answer->Count_0 as nat),
            )
            &&& answer is Present && answer->Present_0 ==> status == Status::Success.code()
                && value.len() == 0
            &&& answer is Present && !answer->Present_0 ==> status
                == Status::SubdocPathNotFound.code() && value.len() == 0
            &&& answer is PathNotFound ==> status == Status::SubdocPathNotFound.code()
                && value.len() == 0
            &&& answer is Failed ==> status == Status::InternalError.code() && value.len() == 0
        }),
{
    let value = lookup_value(query, answer);
    let code = lookup_status(query, answer).code();
    let frame = lookup_frame(query, answer);
    lemma_fits(0, code, value.len() as u32, 0);
    lemma_be_round_trip(code as nat, 2);
    lemma_be_round_trip(value.len(), 4);
    assert(frame.subrange(0, 2) =~= be_bytes(code as nat, 2));
    assert(frame.subrange(2, 6) =~= be_bytes(value.len(), 4));
    assert(frame.subrange(6, frame.len() as int) =~= value);
}

/// A multi-lookup of a document gives, with its CAS, the bytes of its lookups in their order, and
/// succeeds exactly where every lookup does.
pub proof fn law_multi_lookups_give_every_path(
    req: Request,
    f: Found,
    answers: Seq<LookupAnswer>,
    k: int,
)
    requires
        req.key_text().len() > 0,
        0 < k <= lookups_in(req.value@, 0).len(),
        answers.len() == lookups_in(req.value@, 0).len(),
    ensures
        ({
            let specs = lookups_in(req.value@, 0);
            let r = multi_lookup_response(req, Outcome::Done(f), answers);
            let code = r.header.vbucket_or_status;
            &&& lookup_frames(specs, answers, k) == lookup_frames(specs, answers, k - 1)
                + lookup_frame(query_of(specs[k - 1]), answers[k - 1])
            &&& lookup_frames(specs, answers, 0).len() == 0
            &&& r.value == lookup_frames(specs, answers, specs.len() as int)
            &&& r.header.cas == f.doc.cas
            &&& r.header.opaque == req.header.opaque
            &&& r.header.opcode == Opcode::SubdocMultiLookup
            &&& code == Status::Success.code() || code == Status::SubdocPathNotFound.code()
            &&& lookup_status(query_of(specs[k - 1]), answers[k - 1]) != Status::Success ==> code
                == Status::SubdocPathNotFound.code()
            &&& (forall|i: int|
                0 <= i < specs.len() ==> lookup_status(query_of(#[trigger] specs[i]), answers[i])
                    == Status::Success) ==> code == Status::Success.code()
        }),
{
}

/// Where every mutation is known and succeeds, the answer is success with the CAS of the last; zero
/// where there was none.
pub proof fn law_successful_mutations_give_the_last_cas(
    req: Request,
    specs: Seq<MutationView>,
    results: Seq<MutationResult>,
    i: int,
    last_cas: u64,
)
    requires
        0 <= i <= specs.len(),
        specs.len() == results.len(),
        forall|k: int| 0 <= k < specs.len() ==> call_of(#[trigger] specs[k]) != MutationCall::Unknown,
        forall|k: int| 0 <= k < results.len() ==> (#[trigger] results[k]) is Ok,
    ensures
        ({
            let r = mutations_response(req, specs, results, i, last_cas);
            &&& r.header.vbucket_or_status == Status::Success.code()
            &&& r.header.opaque == req.header.opaque
            &&& r.header.opcode == Opcode::SubdocMultiMutation
            &&& r.value.len() == 0
            &&& r.header.cas == if i < specs.len() {
                results.last()->Ok_0
            } else {
                last_cas
            }
        }),
    decreases specs.len() - i,
{
    if i < specs.len() {
        assert(call_of(specs[i]) != MutationCall::Unknown);
        law_successful_mutations_give_the_last_cas(
            req,
            specs,
            results,
            i + 1,
            results[i]->Ok_0,
        );
    }
}

/// The first mutation that fails decides the answer, and is named in it where its path was the
/// reason; those behind it have no say.
pub proof fn law_first_failure_decides(
    req: Request,
    specs: Seq<MutationView>,
    results: Seq<MutationResult>,
    i: int,
    p: int,
    last_cas: u64,
)
    requires
        0 <= i <= p < specs.len(),
        p < results.len(),
        forall|k: int| i <= k <= p ==> call_of(#[trigger] specs[k]) != MutationCall::Unknown,
        forall|k: int| i <= k < p ==> (#[trigger] results[k]) is Ok,
        results[p] is Err,
    ensures
        ({
            let r = mutations_response(req, specs, results, i, last_cas);
            let e = results[p]->Err_0;
            let code = r.header.vbucket_or_status;
            &&& r.header.opaque == req.header.opaque
            &&& r.header.opcode == Opcode::SubdocMultiMutation
            &&& r.header.cas == 0
            &&& e is SubdocPathNotFound <==> code == Status::SubdocPathNotFound.code()
            &&& e is SubdocPathExists <==> code == Status::SubdocPathExists.code()
            &&& e is DocumentNotFound <==> code == Status::KeyNotFound.code()
            &&& e is CasMismatch <==> code == Status::KeyExists.code()
            &&& e is SubdocPathNotFound || e is SubdocPathExists ==> r.value.len() == 3
                && r.value[0] == p % 256 && be_value(r.value.subrange(1, 3)) == code
            &&& !(e is SubdocPathNotFound) && !(e is SubdocPathExists) && !(e is DocumentNotFound)
                && !(e is CasMismatch) ==> code == Status::InternalError.code() && r.value
                == encode_utf8(e.message())
        }),
    decreases p - i,
{
    assert(call_of(specs[i]) != MutationCall::Unknown);
    if i < p {
        law_first_failure_decides(req, specs, results, i + 1, p, results[i]->Ok_0);
    } else {
        let not_found = Status::SubdocPathNotFound.code();
        let exists_ = Status::SubdocPathExists.code();
        lemma_fits(0, not_found, 0, 0);
        lemma_be_round_trip(not_found as nat, 2);
        lemma_fits(0, exists_, 0, 0);
        lemma_be_round_trip(exists_ as nat, 2);
        assert(failed_at(p, Status::SubdocPathNotFound).subrange(1, 3) =~= be_bytes(
            not_found as nat,
            2,
        ));
        assert(failed_at(p, Status::SubdocPathExists).subrange(1, 3) =~= be_bytes(
            exists_ as nat,
            2,
        ));
    }
}

/// A mutation that is not known stops the request with an answer that says so, where all before it
/// succeeded.
pub proof fn law_unknown_mutations_stop(
    req: Request,
    specs: Seq<MutationView>,
    results: Seq<MutationResult>,
    i: int,
    p: int,
    last_cas: u64,
)
    requires
        0 <= i <= p < specs.len(),
        p <= results.len(),
        forall|k: int| i <= k < p ==> call_of(#[trigger] specs[k]) != MutationCall::Unknown,
        forall|k: int| i <= k < p ==> (#[trigger] results[k]) is Ok,
        call_of(specs[p]) == MutationCall::Unknown,
    ensures
        mutations_response(req, specs, results, i, last_cas).header.vbucket_or_status
            == Status::UnknownCommand.code(),
        mutations_response(req, specs, results, i, last_cas).value == encode_utf8(
            "Unknown subdoc mutation opcode 0x"@ + upper_hex(specs[p].opcode),
        ),
    decreases p - i,
{
    if i < p {
        assert(call_of(specs[i]) != MutationCall::Unknown);
        law_unknown_mutations_stop(req, specs, results, i + 1, p, results[i]->Ok_0);
    }
}

/// Several mutations need a key and a bucket, in this order; where they have both, the mutations that
/// stand in the request decide.
pub proof fn law_mutations_need_key_and_bucket(
    req: Request,
    has_bucket: bool,
    results: Seq<MutationResult>,
)
    ensures
        ({
            let r = multi_mutation_response(req, has_bucket, results);
            &&& r.header.opcode == Opcode::SubdocMultiMutation
                || req.key_text().len() > 0 && has_bucket
            &&& req.key_text().len() == 0 ==> r.header.vbucket_or_status
                == Status::InvalidArguments.code() && r.value == encode_utf8("Empty key"@)
            &&& req.key_text().len() > 0 && !has_bucket ==> r.header.vbucket_or_status
                == Status::NoBucket.code() && r.value == encode_utf8("Bucket not found"@)
            &&& req.key_text().len() > 0 && has_bucket ==> r == mutations_response(
                req,
                mutations_in(req.value@, 0),
                results,
                0,
                0,
            )
        }),
{
}

/// A value comes only of a read, yes or no only of a question whether a path is there, and a number
/// only of a count; a path that is missing is no failure of such a question.
pub proof fn law_answers_fit_their_query(query: LookupQuery, answer: LookupAnswer)
    requires
        answers_query(query, answer),
    ensures
        answer is Value ==> query == LookupQuery::Get || query == LookupQuery::XattrGet,
        answer is Present ==> query == LookupQuery::Exists || query == LookupQuery::XattrExists,
        answer is Count ==> query == LookupQuery::Count,
        answer is PathNotFound ==> query != LookupQuery::Exists && query != LookupQuery::XattrExists,
{
}

} // verus!
