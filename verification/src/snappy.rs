//! Snappy compression, as the `snap` crate provides it.

use vstd::prelude::*;

verus! {

/// What Snappy makes of bytes, if they are not too many.
pub uninterp spec fn snappy_compressed(data: Seq<u8>) -> Option<Seq<u8>>;

/// The bytes from which Snappy made others, if those are well-formed.
pub uninterp spec fn snappy_decompressed(data: Seq<u8>) -> Option<Seq<u8>>;

/// Compresses bytes.
///
/// Trusted: `snap::raw::Encoder::compress_vec` with a fresh encoder decides from the bytes alone
/// what it returns, which decompresses to the bytes and is never empty.
#[verifier::external_body]
pub(crate) fn compress(data: &[u8]) -> (r: Option<Vec<u8>>)
    ensures
        match r {
            Some(c) => snappy_compressed(data@) == Some(c@) && snappy_decompressed(c@) == Some(
                data@,
            ) && c@.len() > 0,
            None => snappy_compressed(data@) is None,
        },
{
    snap::raw::Encoder::new().compress_vec(data).ok()
}

/// Decompresses bytes.
///
/// Trusted: `snap::raw::Decoder::decompress_vec` decides from the bytes alone whether they are
/// well-formed, and what they decompress to.
#[verifier::external_body]
pub(crate) fn decompress(data: &[u8]) -> (r: Option<Vec<u8>>)
    ensures
        match r {
            Some(d) => snappy_decompressed(data@) == Some(d@),
            None => snappy_decompressed(data@) is None,
        },
{
    snap::raw::Decoder::new().decompress_vec(data).ok()
}

} // verus!
