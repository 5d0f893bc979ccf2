//! The Couchbase memcached binary protocol: a packet is a header of twenty-four bytes, followed
//! by extras, key and value.

use crate::be_bytes::{
    be_bytes, be_value, lemma_be_bytes_len, lemma_be_inverse, lemma_be_round_trip, lemma_fits,
    push_be, push_bytes, read_u16, read_u32, read_u64, slice_of, copy_bytes,
};
use crate::text::text_from_utf8;
use vstd::prelude::*;
use vstd::std_specs::convert::FromSpecImpl;
use vstd::string::*;
use vstd::utf8::{
    decode_utf8, encode_utf8, encode_utf8_decode_utf8, encode_utf8_valid_utf8, valid_utf8,
};

verus! {

pub const MAGIC_REQUEST: u8 = 0x80;

pub const MAGIC_RESPONSE: u8 = 0x81;

/// What a packet asks for.
#[derive(Debug, Clone, Copy, PartialEq, Eq, Structural)]
pub enum Opcode {
    Get,
    SetKey,
    Add,
    Replace,
    Delete,
    Increment,
    Decrement,
    Quit,
    Flush,
    /// Quiet GET.
    GetQ,
    Noop,
    Version,
    /// GET with key.
    GetK,
    /// Quiet GET with key.
    GetKQ,
    Append,
    Prepend,
    Stat,
    SetQ,
    AddQ,
    ReplaceQ,
    DeleteQ,
    IncrementQ,
    DecrementQ,
    QuitQ,
    FlushQ,
    AppendQ,
    PrependQ,
    Touch,
    /// GET and TOUCH.
    Gat,
    Hello,
    SaslListMechs,
    SaslAuth,
    SaslStep,
    SelectBucket,
    GetLocked,
    UnlockKey,
    ObserveSeqno,
    SubdocGet,
    SubdocExists,
    SubdocDictAdd,
    SubdocDictUpsert,
    SubdocDelete,
    SubdocReplace,
    SubdocArrayPushLast,
    SubdocArrayPushFirst,
    SubdocArrayInsert,
    SubdocArrayAddUnique,
    SubdocCounter,
    SubdocMultiLookup,
    SubdocMultiMutation,
    SubdocGetCount,
    GetReplica,
    GetMeta,
    GetCollectionsManifest,
    GetCollectionId,
    GetClusterConfig,
    GetErrorMap,
    /// SET with durability.
    DurabilitySet,
    /// ADD with durability.
    DurabilityAdd,
    /// REPLACE with durability.
    DurabilityReplace,
    /// DELETE with durability.
    DurabilityDelete,
    Unknown,
}

impl Opcode {
    /// The byte that stands for an opcode.
    pub open spec fn code(self) -> u8 {
        match self {
            Opcode::Get => 0x00,
            Opcode::SetKey => 0x01,
            Opcode::Add => 0x02,
            Opcode::Replace => 0x03,
            Opcode::Delete => 0x04,
            Opcode::Increment => 0x05,
            Opcode::Decrement => 0x06,
            Opcode::Quit => 0x07,
            Opcode::Flush => 0x08,
            Opcode::GetQ => 0x09,
            Opcode::Noop => 0x0A,
            Opcode::Version => 0x0B,
            Opcode::GetK => 0x0C,
            Opcode::GetKQ => 0x0D,
            Opcode::Append => 0x0E,
            Opcode::Prepend => 0x0F,
            Opcode::Stat => 0x10,
            Opcode::SetQ => 0x11,
            Opcode::AddQ => 0x12,
            Opcode::ReplaceQ => 0x13,
            Opcode::DeleteQ => 0x14,
            Opcode::IncrementQ => 0x15,
            Opcode::DecrementQ => 0x16,
            Opcode::QuitQ => 0x17,
            Opcode::FlushQ => 0x18,
            Opcode::AppendQ => 0x19,
            Opcode::PrependQ => 0x1A,
            Opcode::Touch => 0x1C,
            Opcode::Gat => 0x1D,
            Opcode::Hello => 0x1F,
            Opcode::SaslListMechs => 0x20,
            Opcode::SaslAuth => 0x21,
            Opcode::SaslStep => 0x22,
            Opcode::SelectBucket => 0x89,
            Opcode::GetLocked => 0x94,
            Opcode::UnlockKey => 0x95,
            Opcode::ObserveSeqno => 0x91,
            Opcode::SubdocGet => 0xC5,
            Opcode::SubdocExists => 0xC6,
            Opcode::SubdocDictAdd => 0xC7,
            Opcode::SubdocDictUpsert => 0xC8,
            Opcode::SubdocDelete => 0xC9,
            Opcode::SubdocReplace => 0xCA,
            Opcode::SubdocArrayPushLast => 0xCB,
            Opcode::SubdocArrayPushFirst => 0xCC,
            Opcode::SubdocArrayInsert => 0xCD,
            Opcode::SubdocArrayAddUnique => 0xCE,
            Opcode::SubdocCounter => 0xCF,
            Opcode::SubdocMultiLookup => 0xD0,
            Opcode::SubdocMultiMutation => 0xD1,
            Opcode::SubdocGetCount => 0xD2,
            Opcode::GetReplica => 0x83,
            Opcode::GetMeta => 0xA0,
            Opcode::GetCollectionsManifest => 0xBA,
            Opcode::GetCollectionId => 0xBB,
            Opcode::GetClusterConfig => 0xB5,
            Opcode::GetErrorMap => 0xFE,
            Opcode::DurabilitySet => 0x35,
            Opcode::DurabilityAdd => 0x36,
            Opcode::DurabilityReplace => 0x37,
            Opcode::DurabilityDelete => 0x38,
            Opcode::Unknown => 0xFF,
        }
    }

    /// The byte that stands for the opcode.
    pub fn to_byte(self) -> (r: u8)
        ensures
            r == self.code(),
    {
        match self {
            Opcode::Get => 0x00,
            Opcode::SetKey => 0x01,
            Opcode::Add => 0x02,
            Opcode::Replace => 0x03,
            Opcode::Delete => 0x04,
            Opcode::Increment => 0x05,
            Opcode::Decrement => 0x06,
            Opcode::Quit => 0x07,
            Opcode::Flush => 0x08,
            Opcode::GetQ => 0x09,
            Opcode::Noop => 0x0A,
            Opcode::Version => 0x0B,
            Opcode::GetK => 0x0C,
            Opcode::GetKQ => 0x0D,
            Opcode::Append => 0x0E,
            Opcode::Prepend => 0x0F,
            Opcode::Stat => 0x10,
            Opcode::SetQ => 0x11,
            Opcode::AddQ => 0x12,
            Opcode::ReplaceQ => 0x13,
            Opcode::DeleteQ => 0x14,
            Opcode::IncrementQ => 0x15,
            Opcode::DecrementQ => 0x16,
            Opcode::QuitQ => 0x17,
            Opcode::FlushQ => 0x18,
            Opcode::AppendQ => 0x19,
            Opcode::PrependQ => 0x1A,
            Opcode::Touch => 0x1C,
            Opcode::Gat => 0x1D,
            Opcode::Hello => 0x1F,
            Opcode::SaslListMechs => 0x20,
            Opcode::SaslAuth => 0x21,
            Opcode::SaslStep => 0x22,
            Opcode::SelectBucket => 0x89,
            Opcode::GetLocked => 0x94,
            Opcode::UnlockKey => 0x95,
            Opcode::ObserveSeqno => 0x91,
            Opcode::SubdocGet => 0xC5,
            Opcode::SubdocExists => 0xC6,
            Opcode::SubdocDictAdd => 0xC7,
            Opcode::SubdocDictUpsert => 0xC8,
            Opcode::SubdocDelete => 0xC9,
            Opcode::SubdocReplace => 0xCA,
            Opcode::SubdocArrayPushLast => 0xCB,
            Opcode::SubdocArrayPushFirst => 0xCC,
            Opcode::SubdocArrayInsert => 0xCD,
            Opcode::SubdocArrayAddUnique => 0xCE,
            Opcode::SubdocCounter => 0xCF,
            Opcode::SubdocMultiLookup => 0xD0,
            Opcode::SubdocMultiMutation => 0xD1,
            Opcode::SubdocGetCount => 0xD2,
            Opcode::GetReplica => 0x83,
            Opcode::GetMeta => 0xA0,
            Opcode::GetCollectionsManifest => 0xBA,
            Opcode::GetCollectionId => 0xBB,
            Opcode::GetClusterConfig => 0xB5,
            Opcode::GetErrorMap => 0xFE,
            Opcode::DurabilitySet => 0x35,
            Opcode::DurabilityAdd => 0x36,
            Opcode::DurabilityReplace => 0x37,
            Opcode::DurabilityDelete => 0x38,
            Opcode::Unknown => 0xFF,
        }
    }
}

/// The opcode for which a byte stands.
pub open spec fn opcode_of(v: u8) -> Opcode {
    match v {
        0x00 => Opcode::Get,
        0x01 => Opcode::SetKey,
        0x02 => Opcode::Add,
        0x03 => Opcode::Replace,
        0x04 => Opcode::Delete,
        0x05 => Opcode::Increment,
        0x06 => Opcode::Decrement,
        0x07 => Opcode::Quit,
        0x08 => Opcode::Flush,
        0x09 => Opcode::GetQ,
        0x0A => Opcode::Noop,
        0x0B => Opcode::Version,
        0x0C => Opcode::GetK,
        0x0D => Opcode::GetKQ,
        0x0E => Opcode::Append,
        0x0F => Opcode::Prepend,
        0x10 => Opcode::Stat,
        0x11 => Opcode::SetQ,
        0x12 => Opcode::AddQ,
        0x13 => Opcode::ReplaceQ,
        0x14 => Opcode::DeleteQ,
        0x15 => Opcode::IncrementQ,
        0x16 => Opcode::DecrementQ,
        0x17 => Opcode::QuitQ,
        0x18 => Opcode::FlushQ,
        0x19 => Opcode::AppendQ,
        0x1A => Opcode::PrependQ,
        0x1C => Opcode::Touch,
        0x1D => Opcode::Gat,
        0x1F => Opcode::Hello,
        0x20 => Opcode::SaslListMechs,
        0x21 => Opcode::SaslAuth,
        0x22 => Opcode::SaslStep,
        0x89 => Opcode::SelectBucket,
        0x94 => Opcode::GetLocked,
        0x95 => Opcode::UnlockKey,
        0x91 => Opcode::ObserveSeqno,
        0xC5 => Opcode::SubdocGet,
        0xC6 => Opcode::SubdocExists,
        0xC7 => Opcode::SubdocDictAdd,
        0xC8 => Opcode::SubdocDictUpsert,
        0xC9 => Opcode::SubdocDelete,
        0xCA => Opcode::SubdocReplace,
        0xCB => Opcode::SubdocArrayPushLast,
        0xCC => Opcode::SubdocArrayPushFirst,
        0xCD => Opcode::SubdocArrayInsert,
        0xCE => Opcode::SubdocArrayAddUnique,
        0xCF => Opcode::SubdocCounter,
        0xD0 => Opcode::SubdocMultiLookup,
        0xD1 => Opcode::SubdocMultiMutation,
        0xD2 => Opcode::SubdocGetCount,
        0x83 => Opcode::GetReplica,
        0xA0 => Opcode::GetMeta,
        0xBA => Opcode::GetCollectionsManifest,
        0xBB => Opcode::GetCollectionId,
        0xB5 => Opcode::GetClusterConfig,
        0xFE => Opcode::GetErrorMap,
        0x35 => Opcode::DurabilitySet,
        0x36 => Opcode::DurabilityAdd,
        0x37 => Opcode::DurabilityReplace,
        0x38 => Opcode::DurabilityDelete,
        _ => Opcode::Unknown,
    }
}

impl FromSpecImpl<u8> for Opcode {
    open spec fn obeys_from_spec() -> bool {
        true
    }

    open spec fn from_spec(v: u8) -> Self {
        opcode_of(v)
    }
}

impl From<u8> for Opcode {
    fn from(v: u8) -> (r: Self) {
        match v {
            0x00 => Opcode::Get,
            0x01 => Opcode::SetKey,
            0x02 => Opcode::Add,
            0x03 => Opcode::Replace,
            0x04 => Opcode::Delete,
            0x05 => Opcode::Increment,
            0x06 => Opcode::Decrement,
            0x07 => Opcode::Quit,
            0x08 => Opcode::Flush,
            0x09 => Opcode::GetQ,
            0x0A => Opcode::Noop,
            0x0B => Opcode::Version,
            0x0C => Opcode::GetK,
            0x0D => Opcode::GetKQ,
            0x0E => Opcode::Append,
            0x0F => Opcode::Prepend,
            0x10 => Opcode::Stat,
            0x11 => Opcode::SetQ,
            0x12 => Opcode::AddQ,
            0x13 => Opcode::ReplaceQ,
            0x14 => Opcode::DeleteQ,
            0x15 => Opcode::IncrementQ,
            0x16 => Opcode::DecrementQ,
            0x17 => Opcode::QuitQ,
            0x18 => Opcode::FlushQ,
            0x19 => Opcode::AppendQ,
            0x1A => Opcode::PrependQ,
            0x1C => Opcode::Touch,
            0x1D => Opcode::Gat,
            0x1F => Opcode::Hello,
            0x20 => Opcode::SaslListMechs,
            0x21 => Opcode::SaslAuth,
            0x22 => Opcode::SaslStep,
            0x89 => Opcode::SelectBucket,
            0x94 => Opcode::GetLocked,
            0x95 => Opcode::UnlockKey,
            0x91 => Opcode::ObserveSeqno,
            0xC5 => Opcode::SubdocGet,
            0xC6 => Opcode::SubdocExists,
            0xC7 => Opcode::SubdocDictAdd,
            0xC8 => Opcode::SubdocDictUpsert,
            0xC9 => Opcode::SubdocDelete,
            0xCA => Opcode::SubdocReplace,
            0xCB => Opcode::SubdocArrayPushLast,
            0xCC => Opcode::SubdocArrayPushFirst,
            0xCD => Opcode::SubdocArrayInsert,
            0xCE => Opcode::SubdocArrayAddUnique,
            0xCF => Opcode::SubdocCounter,
            0xD0 => Opcode::SubdocMultiLookup,
            0xD1 => Opcode::SubdocMultiMutation,
            0xD2 => Opcode::SubdocGetCount,
            0x83 => Opcode::GetReplica,
            0xA0 => Opcode::GetMeta,
            0xBA => Opcode::GetCollectionsManifest,
            0xBB => Opcode::GetCollectionId,
            0xB5 => Opcode::GetClusterConfig,
            0xFE => Opcode::GetErrorMap,
            0x35 => Opcode::DurabilitySet,
            0x36 => Opcode::DurabilityAdd,
            0x37 => Opcode::DurabilityReplace,
            0x38 => Opcode::DurabilityDelete,
            _ => Opcode::Unknown,
        }
    }
}

/// How a request went.
#[derive(Debug, Clone, Copy, PartialEq, Eq, Structural)]
pub enum Status {
    Success,
    KeyNotFound,
    KeyExists,
    ValueTooLarge,
    InvalidArguments,
    ItemNotStored,
    IncrDecrNonNumeric,
    NotMyVbucket,
    AuthError,
    AuthContinue,
    InvalidRange,
    UnknownCommand,
    OutOfMemory,
    NotSupported,
    InternalError,
    Busy,
    TmpFail,
    NoBucket,
    Locked,
    DurabilityInvalidLevel,
    DurabilityImpossible,
    SyncWriteInProgress,
    SyncWriteAmbiguous,
    SubdocPathNotFound,
    SubdocPathMismatch,
    SubdocPathInvalid,
    SubdocPathExists,
}

impl Status {
    /// The number that stands for a status.
    pub open spec fn code(self) -> u16 {
        match self {
            Status::Success => 0x0000,
            Status::KeyNotFound => 0x0001,
            Status::KeyExists => 0x0002,
            Status::ValueTooLarge => 0x0003,
            Status::InvalidArguments => 0x0004,
            Status::ItemNotStored => 0x0005,
            Status::IncrDecrNonNumeric => 0x0006,
            Status::NotMyVbucket => 0x0007,
            Status::AuthError => 0x0020,
            Status::AuthContinue => 0x0021,
            Status::InvalidRange => 0x0022,
            Status::UnknownCommand => 0x0081,
            Status::OutOfMemory => 0x0082,
            Status::NotSupported => 0x0083,
            Status::InternalError => 0x0084,
            Status::Busy => 0x0085,
            Status::TmpFail => 0x0086,
            Status::NoBucket => 0x08,
            Status::Locked => 0x0009,
            Status::DurabilityInvalidLevel => 0x00A0,
            Status::DurabilityImpossible => 0x00A1,
            Status::SyncWriteInProgress => 0x00A2,
            Status::SyncWriteAmbiguous => 0x00A3,
            Status::SubdocPathNotFound => 0x00C0,
            Status::SubdocPathMismatch => 0x00C1,
            Status::SubdocPathInvalid => 0x00C3,
            Status::SubdocPathExists => 0x00C8,
        }
    }

    /// The number that stands for the status.
    pub fn to_u16(self) -> (r: u16)
        ensures
            r == self.code(),
    {
        match self {
            Status::Success => 0x0000,
            Status::KeyNotFound => 0x0001,
            Status::KeyExists => 0x0002,
            Status::ValueTooLarge => 0x0003,
            Status::InvalidArguments => 0x0004,
            Status::ItemNotStored => 0x0005,
            Status::IncrDecrNonNumeric => 0x0006,
            Status::NotMyVbucket => 0x0007,
            Status::AuthError => 0x0020,
            Status::AuthContinue => 0x0021,
            Status::InvalidRange => 0x0022,
            Status::UnknownCommand => 0x0081,
            Status::OutOfMemory => 0x0082,
            Status::NotSupported => 0x0083,
            Status::InternalError => 0x0084,
            Status::Busy => 0x0085,
            Status::TmpFail => 0x0086,
            Status::NoBucket => 0x08,
            Status::Locked => 0x0009,
            Status::DurabilityInvalidLevel => 0x00A0,
            Status::DurabilityImpossible => 0x00A1,
            Status::SyncWriteInProgress => 0x00A2,
            Status::SyncWriteAmbiguous => 0x00A3,
            Status::SubdocPathNotFound => 0x00C0,
            Status::SubdocPathMismatch => 0x00C1,
            Status::SubdocPathInvalid => 0x00C3,
            Status::SubdocPathExists => 0x00C8,
        }
    }
}

/// A feature that client and server agree on.
#[derive(Debug, Clone, Copy, PartialEq, Eq, Structural)]
pub enum HelloFeature {
    Datatype,
    Tls,
    TcpNodelay,
    MutationSeqno,
    TcpDelay,
    Xattr,
    Xerror,
    SelectBucket,
    Snappy,
    Json,
    Duplex,
    ClustermapNotif,
    UnorderedExec,
    AltRequest,
    SyncReplication,
    Collections,
    PreserveTtl,
}

impl HelloFeature {
    /// The number that stands for a feature.
    pub open spec fn code(self) -> u16 {
        match self {
            HelloFeature::Datatype => 0x0001,
            HelloFeature::Tls => 0x0002,
            HelloFeature::TcpNodelay => 0x0003,
            HelloFeature::MutationSeqno => 0x0004,
            HelloFeature::TcpDelay => 0x0005,
            HelloFeature::Xattr => 0x0006,
            HelloFeature::Xerror => 0x0007,
            HelloFeature::SelectBucket => 0x0008,
            HelloFeature::Snappy => 0x000A,
            HelloFeature::Json => 0x000B,
            HelloFeature::Duplex => 0x000C,
            HelloFeature::ClustermapNotif => 0x000D,
            HelloFeature::UnorderedExec => 0x000E,
            HelloFeature::AltRequest => 0x0010,
            HelloFeature::SyncReplication => 0x0011,
            HelloFeature::Collections => 0x0012,
            HelloFeature::PreserveTtl => 0x0014,
        }
    }

    /// The number that stands for the feature.
    pub fn to_u16(self) -> (r: u16)
        ensures
            r == self.code(),
    {
        match self {
            HelloFeature::Datatype => 0x0001,
            HelloFeature::Tls => 0x0002,
            HelloFeature::TcpNodelay => 0x0003,
            HelloFeature::MutationSeqno => 0x0004,
            HelloFeature::TcpDelay => 0x0005,
            HelloFeature::Xattr => 0x0006,
            HelloFeature::Xerror => 0x0007,
            HelloFeature::SelectBucket => 0x0008,
            HelloFeature::Snappy => 0x000A,
            HelloFeature::Json => 0x000B,
            HelloFeature::Duplex => 0x000C,
            HelloFeature::ClustermapNotif => 0x000D,
            HelloFeature::UnorderedExec => 0x000E,
            HelloFeature::AltRequest => 0x0010,
            HelloFeature::SyncReplication => 0x0011,
            HelloFeature::Collections => 0x0012,
            HelloFeature::PreserveTtl => 0x0014,
        }
    }
}

/// The length of a packet header.
pub const HEADER_SIZE: usize = 24;

/// A packet header.
#[derive(Debug, Clone, Copy, PartialEq, Eq, Structural)]
pub struct PacketHeader {
    pub magic: u8,
    pub opcode: Opcode,
    pub key_length: u16,
    pub extras_length: u8,
    pub data_type: u8,
    /// The vBucket of a request, the status of a response.
    pub vbucket_or_status: u16,
    pub total_body_length: u32,
    pub opaque: u32,
    pub cas: u64,
}

/// The header that stands in the first twenty-four bytes of a buffer.
pub open spec fn header_in(buf: Seq<u8>) -> PacketHeader {
    PacketHeader {
        magic: buf[0],
        opcode: opcode_of(buf[1]),
        key_length: be_value(buf.subrange(2, 4)) as u16,
        extras_length: buf[4],
        data_type: buf[5],
        vbucket_or_status: be_value(buf.subrange(6, 8)) as u16,
        total_body_length: be_value(buf.subrange(8, 12)) as u32,
        opaque: be_value(buf.subrange(12, 16)) as u32,
        cas: be_value(buf.subrange(16, 24)) as u64,
    }
}

impl PacketHeader {
    /// The bytes of a header.
    pub open spec fn bytes(self) -> Seq<u8> {
        seq![self.magic, self.opcode.code()] + be_bytes(self.key_length as nat, 2) + seq![
            self.extras_length,
            self.data_type,
        ] + be_bytes(self.vbucket_or_status as nat, 2) + be_bytes(
            self.total_body_length as nat,
            4,
        ) + be_bytes(self.opaque as nat, 4) + be_bytes(self.cas as nat, 8)
    }

    /// Reads a header; `None` where there are too few bytes.
    pub fn decode(buf: &[u8]) -> (r: Option<Self>)
        ensures
            match r {
                Some(h) => buf@.len() >= HEADER_SIZE && h == header_in(buf@),
                None => buf@.len() < HEADER_SIZE,
            },
    {
        if buf.len() < HEADER_SIZE {
            return None;
        }
        Some(
            PacketHeader {
                magic: buf[0],
                opcode: Opcode::from(buf[1]),
                key_length: read_u16(buf, 2),
                extras_length: buf[4],
                data_type: buf[5],
                vbucket_or_status: read_u16(buf, 6),
                total_body_length: read_u32(buf, 8),
                opaque: read_u32(buf, 12),
                cas: read_u64(buf, 16),
            },
        )
    }

    /// Appends the bytes of the header.
    pub fn encode(&self, buf: &mut Vec<u8>)
        ensures
            final(buf)@ == old(buf)@ + self.bytes(),
    {
        let ghost start = buf@;
        buf.push(self.magic);
        buf.push(self.opcode.to_byte());
        push_be(buf, self.key_length as u64, 2);
        buf.push(self.extras_length);
        buf.push(self.data_type);
        push_be(buf, self.vbucket_or_status as u64, 2);
        push_be(buf, self.total_body_length as u64, 4);
        push_be(buf, self.opaque as u64, 4);
        push_be(buf, self.cas, 8);
        assert(buf@ =~= start + self.bytes());
    }
}

/// A request packet.
#[derive(Debug)]
pub struct Request {
    pub header: PacketHeader,
    pub extras: Vec<u8>,
    pub key: Vec<u8>,
    pub value: Vec<u8>,
}

/// Whether a buffer starts with all bytes of a packet.
pub open spec fn is_complete(buf: Seq<u8>) -> bool {
    buf.len() >= HEADER_SIZE && buf.len() >= HEADER_SIZE + header_in(buf).total_body_length
}

/// Whether the header of a buffer leaves room for extras and key in the body.
pub open spec fn is_sound(buf: Seq<u8>) -> bool {
    header_in(buf).extras_length + header_in(buf).key_length <= header_in(buf).total_body_length
}

/// Whether a packet that is complete has a body with room for its extras and its key; a
/// packet that is not complete passes.
pub fn is_well_formed(buf: &[u8]) -> (r: bool)
    ensures
        r == (is_complete(buf@) ==> is_sound(buf@)),
{
    match PacketHeader::decode(buf) {
        Some(h) => {
            let total: u64 = 24 + h.total_body_length as u64;
            if (buf.len() as u64) < total {
                return true;
            }
            h.extras_length as u64 + h.key_length as u64 <= h.total_body_length as u64
        },
        None => true,
    }
}

impl Request {
    /// Whether a request is the one at the start of a buffer.
    pub open spec fn is_in(self, buf: Seq<u8>) -> bool {
        let h = header_in(buf);
        let e = HEADER_SIZE + h.extras_length;
        let k = e + h.key_length;
        &&& self.header == h
        &&& self.extras@ == buf.subrange(HEADER_SIZE as int, e as int)
        &&& self.key@ == buf.subrange(e as int, k as int)
        &&& self.value@ == buf.subrange(k as int, HEADER_SIZE + h.total_body_length)
    }

    /// Reads a request and says how many bytes it took; `None` while bytes are missing. The body
    /// of a complete packet must have room for its extras and its key.
    pub fn decode(buf: &[u8]) -> (r: Option<(Self, usize)>)
        requires
            is_complete(buf@) ==> is_sound(buf@),
        ensures
            match r {
                Some((request, taken)) => is_complete(buf@) && taken == HEADER_SIZE + header_in(
                    buf@,
                ).total_body_length && request.is_in(buf@),
                None => !is_complete(buf@),
            },
    {
        match PacketHeader::decode(buf) {
            Some(header) => {
                let total: u64 = 24 + header.total_body_length as u64;
                if (buf.len() as u64) < total {
                    return None;
                }
                let total_len: usize = total as usize;
                let extras_end: usize = HEADER_SIZE + header.extras_length as usize;
                let key_end: usize = extras_end + header.key_length as usize;
                let extras = slice_of(buf, HEADER_SIZE, extras_end);
                let key = slice_of(buf, extras_end, key_end);
                let value = slice_of(buf, key_end, total_len);
                Some((Request { header, extras, key, value }, total_len))
            },
            None => None,
        }
    }

    /// The key as a text; empty where it is not UTF-8.
    pub open spec fn key_text(self) -> Seq<char> {
        if valid_utf8(self.key@) {
            decode_utf8(self.key@)
        } else {
            ""@
        }
    }

    /// The key as a text; empty where it is not UTF-8.
    pub fn key_str(&self) -> (r: String)
        ensures
            r@ == self.key_text(),
    {
        match text_from_utf8(copy_bytes(&self.key)) {
            Some(s) => s,
            None => "".to_owned(),
        }
    }

    /// Flags and expiry of a SET, ADD or REPLACE; zeros where the extras are too short.
    pub open spec fn flags_and_expiry(self) -> (u32, u32) {
        if self.extras@.len() >= 8 {
            (
                be_value(self.extras@.subrange(0, 4)) as u32,
                be_value(self.extras@.subrange(4, 8)) as u32,
            )
        } else {
            (0, 0)
        }
    }

    /// Flags and expiry of a SET, ADD or REPLACE.
    pub fn mutation_extras(&self) -> (r: (u32, u32))
        ensures
            r == self.flags_and_expiry(),
    {
        if self.extras.len() >= 8 {
            (read_u32(self.extras.as_slice(), 0), read_u32(self.extras.as_slice(), 4))
        } else {
            (0, 0)
        }
    }

    pub fn vbucket_id(&self) -> (r: u16)
        ensures
            r == self.header.vbucket_or_status,
    {
        self.header.vbucket_or_status
    }
}

/// A response packet; the lengths in its header are filled in when it is encoded.
#[derive(Debug)]
pub struct Response {
    pub header: PacketHeader,
    pub extras: Vec<u8>,
    pub key: Vec<u8>,
    pub value: Vec<u8>,
}

/// What a [`Response`] stands for.
#[verifier::ext_equal]
pub struct ResponseView {
    pub header: PacketHeader,
    pub extras: Seq<u8>,
    pub key: Seq<u8>,
    pub value: Seq<u8>,
}

impl ResponseView {
    /// An empty response.
    pub open spec fn plain(opcode: Opcode, status: Status, opaque: u32) -> Self {
        ResponseView {
            header: PacketHeader {
                magic: MAGIC_RESPONSE,
                opcode,
                key_length: 0,
                extras_length: 0,
                data_type: 0,
                vbucket_or_status: status.code(),
                total_body_length: 0,
                opaque,
                cas: 0,
            },
            extras: Seq::empty(),
            key: Seq::empty(),
            value: Seq::empty(),
        }
    }

    pub open spec fn cas(self, cas: u64) -> Self {
        ResponseView { header: PacketHeader { cas, ..self.header }, ..self }
    }

    pub open spec fn with_extras(self, extras: Seq<u8>) -> Self {
        ResponseView { extras, ..self }
    }

    pub open spec fn with_key(self, key: Seq<u8>) -> Self {
        ResponseView { key, ..self }
    }

    pub open spec fn with_value(self, value: Seq<u8>) -> Self {
        ResponseView { value, ..self }
    }

    pub open spec fn datatype(self, dt: u8) -> Self {
        ResponseView { header: PacketHeader { data_type: dt, ..self.header }, ..self }
    }

    /// An error with a message.
    pub open spec fn error(opcode: Opcode, status: Status, opaque: u32, msg: Seq<char>) -> Self {
        Self::plain(opcode, status, opaque).with_value(vstd::utf8::encode_utf8(msg))
    }

    /// The header with the lengths of what follows it, cut off to the width of their fields.
    pub open spec fn sized_header(self) -> PacketHeader {
        PacketHeader {
            extras_length: (self.extras.len() % 256) as u8,
            key_length: (self.key.len() % 65536) as u16,
            total_body_length: ((self.extras.len() + self.key.len() + self.value.len())
                % 0x1_0000_0000) as u32,
            ..self.header
        }
    }

    /// The bytes of the packet.
    pub open spec fn bytes(self) -> Seq<u8> {
        self.sized_header().bytes() + self.extras + self.key + self.value
    }
}

impl View for Response {
    type V = ResponseView;

    open spec fn view(&self) -> ResponseView {
        ResponseView {
            header: self.header,
            extras: self.extras@,
            key: self.key@,
            value: self.value@,
        }
    }
}

impl Response {
    /// An empty response.
    pub fn new(opcode: Opcode, status: Status, opaque: u32) -> (r: Self)
        ensures
            r@ == ResponseView::plain(opcode, status, opaque),
    {
        let r = Response {
            header: PacketHeader {
                magic: MAGIC_RESPONSE,
                opcode,
                key_length: 0,
                extras_length: 0,
                data_type: 0,
                vbucket_or_status: status.to_u16(),
                total_body_length: 0,
                opaque,
                cas: 0,
            },
            extras: Vec::new(),
            key: Vec::new(),
            value: Vec::new(),
        };
        assert(r@ =~= ResponseView::plain(opcode, status, opaque));
        r
    }

    pub fn with_cas(self, cas: u64) -> (r: Self)
        ensures
            r@ == self@.cas(cas),
    {
        let mut r = self;
        r.header.cas = cas;
        r
    }

    pub fn with_extras(self, extras: Vec<u8>) -> (r: Self)
        ensures
            r@ == self@.with_extras(extras@),
    {
        let mut r = self;
        r.extras = extras;
        r
    }

    pub fn with_key(self, key: Vec<u8>) -> (r: Self)
        ensures
            r@ == self@.with_key(key@),
    {
        let mut r = self;
        r.key = key;
        r
    }

    pub fn with_value(self, value: Vec<u8>) -> (r: Self)
        ensures
            r@ == self@.with_value(value@),
    {
        let mut r = self;
        r.value = value;
        r
    }

    pub fn with_datatype(self, dt: u8) -> (r: Self)
        ensures
            r@ == self@.datatype(dt),
    {
        let mut r = self;
        r.header.data_type = dt;
        r
    }

    /// The bytes of the packet.
    pub fn encode(&self) -> (r: Vec<u8>)
        requires
            self@.extras.len() + self@.key.len() + self@.value.len() <= usize::MAX,
        ensures
            r@ == self@.bytes(),
    {
        let mut header = self.header;
        header.extras_length = (self.extras.len() % 256) as u8;
        header.key_length = (self.key.len() % 65536) as u16;
        let body: usize = self.extras.len() + self.key.len() + self.value.len();
        header.total_body_length = (body as u64 % 0x1_0000_0000) as u32;
        let mut buf: Vec<u8> = Vec::new();
        header.encode(&mut buf);
        push_bytes(&mut buf, self.extras.as_slice());
        push_bytes(&mut buf, self.key.as_slice());
        push_bytes(&mut buf, self.value.as_slice());
        assert(buf@ =~= self@.bytes());
        buf
    }

    /// An error with a message.
    pub fn error(opcode: Opcode, status: Status, opaque: u32, msg: &str) -> (r: Self)
        ensures
            r@ == ResponseView::error(opcode, status, opaque, msg@),
    {
        Response::new(opcode, status, opaque).with_value(msg.as_bytes_vec())
    }
}

// ---- Laws ----

/// The byte of an opcode stands for that opcode.
pub proof fn law_opcode_round_trip(op: Opcode)
    ensures
        opcode_of(op.code()) == op,
{
}

/// A byte that stands for a known opcode is the byte of that opcode.
pub proof fn law_opcode_bytes_are_kept(v: u8)
    ensures
        opcode_of(v) != Opcode::Unknown ==> opcode_of(v).code() == v,
{
}

/// Different statuses have different numbers.
pub proof fn law_status_codes_differ(a: Status, b: Status)
    requires
        a.code() == b.code(),
    ensures
        a == b,
{
}

proof fn lemma_header_layout(h: PacketHeader)
    ensures
        h.bytes().len() == HEADER_SIZE,
        h.bytes()[0] == h.magic,
        h.bytes()[1] == h.opcode.code(),
        h.bytes().subrange(2, 4) == be_bytes(h.key_length as nat, 2),
        h.bytes()[4] == h.extras_length,
        h.bytes()[5] == h.data_type,
        h.bytes().subrange(6, 8) == be_bytes(h.vbucket_or_status as nat, 2),
        h.bytes().subrange(8, 12) == be_bytes(h.total_body_length as nat, 4),
        h.bytes().subrange(12, 16) == be_bytes(h.opaque as nat, 4),
        h.bytes().subrange(16, 24) == be_bytes(h.cas as nat, 8),
{
    lemma_be_bytes_len(h.key_length as nat, 2);
    lemma_be_bytes_len(h.vbucket_or_status as nat, 2);
    lemma_be_bytes_len(h.total_body_length as nat, 4);
    lemma_be_bytes_len(h.opaque as nat, 4);
    lemma_be_bytes_len(h.cas as nat, 8);
    let b = h.bytes();
    assert(b.subrange(2, 4) =~= be_bytes(h.key_length as nat, 2));
    assert(b.subrange(6, 8) =~= be_bytes(h.vbucket_or_status as nat, 2));
    assert(b.subrange(8, 12) =~= be_bytes(h.total_body_length as nat, 4));
    assert(b.subrange(12, 16) =~= be_bytes(h.opaque as nat, 4));
    assert(b.subrange(16, 24) =~= be_bytes(h.cas as nat, 8));
}

/// Reading a header back from its bytes, whatever follows them, gives the header.
pub proof fn law_header_round_trip(h: PacketHeader, rest: Seq<u8>)
    ensures
        h.bytes().len() == HEADER_SIZE,
        header_in(h.bytes() + rest) == h,
{
    lemma_header_layout(h);
    let b = h.bytes();
    let all = b + rest;
    assert(all.subrange(2, 4) =~= b.subrange(2, 4));
    assert(all.subrange(6, 8) =~= b.subrange(6, 8));
    assert(all.subrange(8, 12) =~= b.subrange(8, 12));
    assert(all.subrange(12, 16) =~= b.subrange(12, 16));
    assert(all.subrange(16, 24) =~= b.subrange(16, 24));
    lemma_fits(0, h.key_length, h.total_body_length, h.cas);
    lemma_fits(0, h.vbucket_or_status, h.opaque, 0);
    lemma_be_round_trip(h.key_length as nat, 2);
    lemma_be_round_trip(h.vbucket_or_status as nat, 2);
    lemma_be_round_trip(h.total_body_length as nat, 4);
    lemma_be_round_trip(h.opaque as nat, 4);
    lemma_be_round_trip(h.cas as nat, 8);
}

/// Where the parts of a packet stand in its bytes.
proof fn lemma_parts(head: Seq<u8>, extras: Seq<u8>, key: Seq<u8>, value: Seq<u8>, rest: Seq<u8>)
    ensures
        ({
            let all = head + extras + key + value + rest;
            let h = head.len() as int;
            let e = h + extras.len();
            let k = e + key.len();
            &&& all == head + (extras + key + value + rest)
            &&& all.subrange(h, e) == extras
            &&& all.subrange(e, k) == key
            &&& all.subrange(k, k + value.len()) == value
        }),
{
    let all = head + extras + key + value + rest;
    let h = head.len() as int;
    let e = h + extras.len();
    let k = e + key.len();
    assert(all =~= head + (extras + key + value + rest));
    assert(all.subrange(h, e) =~= extras);
    assert(all.subrange(e, k) =~= key);
    assert(all.subrange(k, k + value.len()) =~= value);
}

/// The bytes of a packet form a complete packet with a sound body, and reading it gives back
/// header, extras, key and value, as long as their lengths fit into the fields of the header.
pub proof fn law_packet_round_trip(p: ResponseView, rest: Seq<u8>, request: Request)
    requires
        p.extras.len() <= 255,
        p.key.len() <= 65535,
        p.extras.len() + p.key.len() + p.value.len() <= u32::MAX,
        request.is_in(p.bytes() + rest),
    ensures
        is_complete(p.bytes() + rest),
        is_sound(p.bytes() + rest),
        request.header == p.sized_header(),
        request.extras@ == p.extras,
        request.key@ == p.key,
        request.value@ == p.value,
{
    let h = p.sized_header();
    law_header_round_trip(h, p.extras + p.key + p.value + rest);
    lemma_parts(h.bytes(), p.extras, p.key, p.value, rest);
}

/// The bytes of the header that was read are the bytes it was read from, if the opcode is known.
pub proof fn law_header_bytes_are_kept(buf: Seq<u8>)
    requires
        buf.len() >= HEADER_SIZE,
        opcode_of(buf[1]) != Opcode::Unknown,
    ensures
        header_in(buf).bytes() == buf.subrange(0, HEADER_SIZE as int),
{
    let h = header_in(buf);
    law_opcode_bytes_are_kept(buf[1]);
    lemma_header_layout(h);
    lemma_be_inverse(buf.subrange(2, 4));
    lemma_be_inverse(buf.subrange(6, 8));
    lemma_be_inverse(buf.subrange(8, 12));
    lemma_be_inverse(buf.subrange(12, 16));
    lemma_be_inverse(buf.subrange(16, 24));
    crate::be_bytes::lemma_be_small(buf.subrange(2, 4));
    crate::be_bytes::lemma_be_small(buf.subrange(6, 8));
    crate::be_bytes::lemma_be_small(buf.subrange(8, 12));
    crate::be_bytes::lemma_be_small(buf.subrange(12, 16));
    crate::be_bytes::lemma_be_small(buf.subrange(16, 24));
    let b = h.bytes();
    let p = buf.subrange(0, HEADER_SIZE as int);
    assert forall|i: int| 0 <= i < HEADER_SIZE implies b[i] == p[i] by {
        if 2 <= i < 4 {
            assert(b.subrange(2, 4)[i - 2] == buf.subrange(2, 4)[i - 2]);
        } else if 6 <= i < 8 {
            assert(b.subrange(6, 8)[i - 6] == buf.subrange(6, 8)[i - 6]);
        } else if 8 <= i < 12 {
            assert(b.subrange(8, 12)[i - 8] == buf.subrange(8, 12)[i - 8]);
        } else if 12 <= i < 16 {
            assert(b.subrange(12, 16)[i - 12] == buf.subrange(12, 16)[i - 12]);
        } else if 16 <= i < 24 {
            assert(b.subrange(16, 24)[i - 16] == buf.subrange(16, 24)[i - 16]);
        }
    }
    assert(b =~= p);
}

/// The numbers of the binary protocol: each opcode has the byte that clients send for it. A quiet
/// opcode is sixteen above its loud counterpart for writes.
pub proof fn law_opcodes_have_their_numbers(op: Opcode)
    ensures
        op == Opcode::Get <==> op.code() == 0x00,
        op == Opcode::SetKey <==> op.code() == 0x01,
        op == Opcode::Add <==> op.code() == 0x02,
        op == Opcode::Replace <==> op.code() == 0x03,
        op == Opcode::Delete <==> op.code() == 0x04,
        op == Opcode::Increment <==> op.code() == 0x05,
        op == Opcode::Decrement <==> op.code() == 0x06,
        op == Opcode::Quit <==> op.code() == 0x07,
        op == Opcode::Flush <==> op.code() == 0x08,
        op == Opcode::GetQ <==> op.code() == 0x09,
        op == Opcode::Noop <==> op.code() == 0x0A,
        op == Opcode::Version <==> op.code() == 0x0B,
        op == Opcode::GetK <==> op.code() == 0x0C,
        op == Opcode::GetKQ <==> op.code() == 0x0D,
        op == Opcode::Append <==> op.code() == 0x0E,
        op == Opcode::Prepend <==> op.code() == 0x0F,
        op == Opcode::Stat <==> op.code() == 0x10,
        op == Opcode::SetQ <==> op.code() == 0x11,
        op == Opcode::AddQ <==> op.code() == 0x12,
        op == Opcode::ReplaceQ <==> op.code() == 0x13,
        op == Opcode::DeleteQ <==> op.code() == 0x14,
        op == Opcode::IncrementQ <==> op.code() == 0x15,
        op == Opcode::DecrementQ <==> op.code() == 0x16,
        op == Opcode::QuitQ <==> op.code() == 0x17,
        op == Opcode::FlushQ <==> op.code() == 0x18,
        op == Opcode::AppendQ <==> op.code() == 0x19,
        op == Opcode::PrependQ <==> op.code() == 0x1A,
        op == Opcode::Touch <==> op.code() == 0x1C,
        op == Opcode::Gat <==> op.code() == 0x1D,
        op == Opcode::Hello <==> op.code() == 0x1F,
        op == Opcode::SaslListMechs <==> op.code() == 0x20,
        op == Opcode::SaslAuth <==> op.code() == 0x21,
        op == Opcode::SaslStep <==> op.code() == 0x22,
        op == Opcode::SelectBucket <==> op.code() == 0x89,
        op == Opcode::GetLocked <==> op.code() == 0x94,
        op == Opcode::UnlockKey <==> op.code() == 0x95,
        op == Opcode::ObserveSeqno <==> op.code() == 0x91,
        op == Opcode::SubdocGet <==> op.code() == 0xC5,
        op == Opcode::SubdocExists <==> op.code() == 0xC6,
        op == Opcode::SubdocDictAdd <==> op.code() == 0xC7,
        op == Opcode::SubdocDictUpsert <==> op.code() == 0xC8,
        op == Opcode::SubdocDelete <==> op.code() == 0xC9,
        op == Opcode::SubdocReplace <==> op.code() == 0xCA,
        op == Opcode::SubdocArrayPushLast <==> op.code() == 0xCB,
        op == Opcode::SubdocArrayPushFirst <==> op.code() == 0xCC,
        op == Opcode::SubdocArrayInsert <==> op.code() == 0xCD,
        op == Opcode::SubdocArrayAddUnique <==> op.code() == 0xCE,
        op == Opcode::SubdocCounter <==> op.code() == 0xCF,
        op == Opcode::SubdocMultiLookup <==> op.code() == 0xD0,
        op == Opcode::SubdocMultiMutation <==> op.code() == 0xD1,
        op == Opcode::SubdocGetCount <==> op.code() == 0xD2,
        op == Opcode::GetReplica <==> op.code() == 0x83,
        op == Opcode::GetMeta <==> op.code() == 0xA0,
        op == Opcode::GetCollectionsManifest <==> op.code() == 0xBA,
        op == Opcode::GetCollectionId <==> op.code() == 0xBB,
        op == Opcode::GetClusterConfig <==> op.code() == 0xB5,
        op == Opcode::GetErrorMap <==> op.code() == 0xFE,
        op == Opcode::DurabilitySet <==> op.code() == 0x35,
        op == Opcode::DurabilityAdd <==> op.code() == 0x36,
        op == Opcode::DurabilityReplace <==> op.code() == 0x37,
        op == Opcode::DurabilityDelete <==> op.code() == 0x38,
        op == Opcode::Unknown <==> op.code() == 0xFF,
        Opcode::SetQ.code() == Opcode::SetKey.code() + 16,
        Opcode::AddQ.code() == Opcode::Add.code() + 16,
        Opcode::ReplaceQ.code() == Opcode::Replace.code() + 16,
        Opcode::DeleteQ.code() == Opcode::Delete.code() + 16,
        Opcode::IncrementQ.code() == Opcode::Increment.code() + 16,
        Opcode::DecrementQ.code() == Opcode::Decrement.code() + 16,
{
}

/// Each status has the number that clients know it by.
pub proof fn law_statuses_have_their_numbers(status: Status)
    ensures
        status == Status::Success <==> status.code() == 0x0000,
        status == Status::KeyNotFound <==> status.code() == 0x0001,
        status == Status::KeyExists <==> status.code() == 0x0002,
        status == Status::ValueTooLarge <==> status.code() == 0x0003,
        status == Status::InvalidArguments <==> status.code() == 0x0004,
        status == Status::ItemNotStored <==> status.code() == 0x0005,
        status == Status::IncrDecrNonNumeric <==> status.code() == 0x0006,
        status == Status::NotMyVbucket <==> status.code() == 0x0007,
        status == Status::AuthError <==> status.code() == 0x0020,
        status == Status::AuthContinue <==> status.code() == 0x0021,
        status == Status::InvalidRange <==> status.code() == 0x0022,
        status == Status::UnknownCommand <==> status.code() == 0x0081,
        status == Status::OutOfMemory <==> status.code() == 0x0082,
        status == Status::NotSupported <==> status.code() == 0x0083,
        status == Status::InternalError <==> status.code() == 0x0084,
        status == Status::Busy <==> status.code() == 0x0085,
        status == Status::TmpFail <==> status.code() == 0x0086,
        status == Status::NoBucket <==> status.code() == 0x08,
        status == Status::Locked <==> status.code() == 0x0009,
        status == Status::DurabilityInvalidLevel <==> status.code() == 0x00A0,
        status == Status::DurabilityImpossible <==> status.code() == 0x00A1,
        status == Status::SyncWriteInProgress <==> status.code() == 0x00A2,
        status == Status::SyncWriteAmbiguous <==> status.code() == 0x00A3,
        status == Status::SubdocPathNotFound <==> status.code() == 0x00C0,
        status == Status::SubdocPathMismatch <==> status.code() == 0x00C1,
        status == Status::SubdocPathInvalid <==> status.code() == 0x00C3,
        status == Status::SubdocPathExists <==> status.code() == 0x00C8,
{
}

/// Each feature has the number that clients know it by.
pub proof fn law_features_have_their_numbers(feature: HelloFeature)
    ensures
        feature == HelloFeature::Datatype <==> feature.code() == 0x0001,
        feature == HelloFeature::Tls <==> feature.code() == 0x0002,
        feature == HelloFeature::TcpNodelay <==> feature.code() == 0x0003,
        feature == HelloFeature::MutationSeqno <==> feature.code() == 0x0004,
        feature == HelloFeature::TcpDelay <==> feature.code() == 0x0005,
        feature == HelloFeature::Xattr <==> feature.code() == 0x0006,
        feature == HelloFeature::Xerror <==> feature.code() == 0x0007,
        feature == HelloFeature::SelectBucket <==> feature.code() == 0x0008,
        feature == HelloFeature::Snappy <==> feature.code() == 0x000A,
        feature == HelloFeature::Json <==> feature.code() == 0x000B,
        feature == HelloFeature::Duplex <==> feature.code() == 0x000C,
        feature == HelloFeature::ClustermapNotif <==> feature.code() == 0x000D,
        feature == HelloFeature::UnorderedExec <==> feature.code() == 0x000E,
        feature == HelloFeature::AltRequest <==> feature.code() == 0x0010,
        feature == HelloFeature::SyncReplication <==> feature.code() == 0x0011,
        feature == HelloFeature::Collections <==> feature.code() == 0x0012,
        feature == HelloFeature::PreserveTtl <==> feature.code() == 0x0014,
{
}

/// Where the fields of a header stand in its bytes: magic, opcode, length of the key, length of the
/// extras, data type, vBucket or status, length of the body, opaque, CAS.
pub proof fn law_header_fields_have_their_places(h: PacketHeader)
    ensures
        h.bytes().len() == 24,
        h.bytes()[0] == h.magic,
        h.bytes()[1] == h.opcode.code(),
        be_value(h.bytes().subrange(2, 4)) == h.key_length,
        h.bytes()[4] == h.extras_length,
        h.bytes()[5] == h.data_type,
        be_value(h.bytes().subrange(6, 8)) == h.vbucket_or_status,
        be_value(h.bytes().subrange(8, 12)) == h.total_body_length,
        be_value(h.bytes().subrange(12, 16)) == h.opaque,
        be_value(h.bytes().subrange(16, 24)) == h.cas,
{
    lemma_header_layout(h);
    lemma_fits(0, h.key_length, h.total_body_length, h.cas);
    lemma_fits(0, h.vbucket_or_status, h.opaque, 0);
    lemma_be_round_trip(h.key_length as nat, 2);
    lemma_be_round_trip(h.vbucket_or_status as nat, 2);
    lemma_be_round_trip(h.total_body_length as nat, 4);
    lemma_be_round_trip(h.opaque as nat, 4);
    lemma_be_round_trip(h.cas as nat, 8);
}

/// A response is marked as one, and bears the status, the opcode and the opaque number it was made
/// with; what is added to it changes that part alone.
pub proof fn law_responses_bear_what_they_are_given(
    op: Opcode,
    status: Status,
    opaque: u32,
    msg: Seq<char>,
    r: ResponseView,
    cas: u64,
    bytes: Seq<u8>,
    dt: u8,
)
    ensures
        ({
            let p = ResponseView::plain(op, status, opaque);
            &&& p.header.magic == 0x81
            &&& p.header.opcode == op
            &&& p.header.vbucket_or_status == status.code()
            &&& p.header.opaque == opaque
            &&& p.header.cas == 0
            &&& p.header.data_type == 0
            &&& p.extras.len() == 0 && p.key.len() == 0 && p.value.len() == 0
        }),
        ResponseView::error(op, status, opaque, msg) == (ResponseView {
            value: vstd::utf8::encode_utf8(msg),
            ..ResponseView::plain(op, status, opaque)
        }),
        r.cas(cas).header.cas == cas,
        r.cas(cas).cas(r.header.cas) == r,
        r.with_extras(bytes).extras == bytes,
        r.with_extras(bytes).with_extras(r.extras) == r,
        r.with_key(bytes).key == bytes,
        r.with_key(bytes).with_key(r.key) == r,
        r.with_value(bytes).value == bytes,
        r.with_value(bytes).with_value(r.value) == r,
        r.datatype(dt).header.data_type == dt,
        r.datatype(dt).datatype(r.header.data_type) == r,
{
}

/// A packet is its header, with the lengths of the parts, and then extras, key and value.
pub proof fn law_packets_have_their_parts(r: ResponseView)
    requires
        r.extras.len() <= 255,
        r.key.len() <= 65535,
        r.extras.len() + r.key.len() + r.value.len() <= u32::MAX,
    ensures
        ({
            let e = 24 + r.extras.len();
            let k = e + r.key.len();
            &&& r.bytes().len() == k + r.value.len()
            &&& r.bytes().subrange(24, e as int) == r.extras
            &&& r.bytes().subrange(e as int, k as int) == r.key
            &&& r.bytes().subrange(k as int, (k + r.value.len()) as int) == r.value
            &&& r.sized_header().extras_length == r.extras.len()
            &&& r.sized_header().key_length == r.key.len()
            &&& r.sized_header().total_body_length == r.extras.len() + r.key.len() + r.value.len()
            &&& r.sized_header().cas == r.header.cas
            &&& r.sized_header().opaque == r.header.opaque
            &&& r.sized_header().opcode == r.header.opcode
            &&& r.sized_header().vbucket_or_status == r.header.vbucket_or_status
        }),
{
    lemma_header_layout(r.sized_header());
    lemma_parts(r.sized_header().bytes(), r.extras, r.key, r.value, Seq::empty());
    assert(r.bytes() + Seq::<u8>::empty() =~= r.bytes());
}

/// The extras of a write are the flags and then the expiry, four bytes each; shorter extras stand
/// for zeros.
pub proof fn law_writes_have_flags_and_expiry(req: Request)
    ensures
        req.extras@.len() < 8 ==> req.flags_and_expiry() == (0u32, 0u32),
        req.extras@.len() >= 8 ==> be_bytes(req.flags_and_expiry().0 as nat, 4) + be_bytes(
            req.flags_and_expiry().1 as nat,
            4,
        ) == req.extras@.subrange(0, 8),
{
    if req.extras@.len() >= 8 {
        let x = req.extras@;
        lemma_be_inverse(x.subrange(0, 4));
        lemma_be_inverse(x.subrange(4, 8));
        crate::be_bytes::lemma_be_small(x.subrange(0, 4));
        crate::be_bytes::lemma_be_small(x.subrange(4, 8));
        assert(x.subrange(0, 4) + x.subrange(4, 8) =~= x.subrange(0, 8));
    }
}

/// A packet is complete once its header is there and as many bytes behind it as the header says.
pub proof fn law_packets_are_complete_with_their_body(buf: Seq<u8>)
    ensures
        buf.len() < 24 ==> !is_complete(buf),
        buf.len() >= 24 ==> (is_complete(buf) <==> buf.len() - 24 >= be_value(buf.subrange(8, 12))),
{
    if buf.len() >= 24 {
        crate::be_bytes::lemma_be_small(buf.subrange(8, 12));
    }
}

/// A key is the text that its bytes encode, and empty where they encode none.
pub proof fn law_keys_are_texts(req: Request, text: Seq<char>)
    ensures
        req.key@ == encode_utf8(text) ==> req.key_text() == text,
        !valid_utf8(req.key@) ==> req.key_text().len() == 0,
{
    encode_utf8_valid_utf8(text);
    encode_utf8_decode_utf8(text);
    reveal_strlit("");
}

} // verus!
