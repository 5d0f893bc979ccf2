//! Cryptographic functions, base64 and random bytes, as other crates provide them.

use base64::engine::general_purpose::STANDARD;
use base64::Engine;
use hmac::{Hmac, Mac};
use rand::Rng;
use sha2::{Sha256, Sha512};
use vstd::prelude::*;

verus! {

/// What PBKDF2 with HMAC-SHA-256 derives: `len` bytes from a password and a salt.
pub uninterp spec fn pbkdf2_sha256_of(
    password: Seq<u8>,
    salt: Seq<u8>,
    rounds: u32,
    len: nat,
) -> Seq<u8>;

/// What PBKDF2 with HMAC-SHA-512 derives: `len` bytes from a password and a salt.
pub uninterp spec fn pbkdf2_sha512_of(
    password: Seq<u8>,
    salt: Seq<u8>,
    rounds: u32,
    len: nat,
) -> Seq<u8>;

/// The HMAC-SHA-256 of a message under a key.
pub uninterp spec fn hmac_sha256_of(key: Seq<u8>, data: Seq<u8>) -> Seq<u8>;

/// The HMAC-SHA-512 of a message under a key.
pub uninterp spec fn hmac_sha512_of(key: Seq<u8>, data: Seq<u8>) -> Seq<u8>;

/// The base64 notation of bytes, in the standard alphabet with padding.
pub uninterp spec fn base64_of(bytes: Seq<u8>) -> Seq<char>;

/// The bytes that a text denotes in base64, if it is well-formed.
pub uninterp spec fn base64_decoded(text: Seq<char>) -> Option<Seq<u8>>;

/// The largest number of bytes that PBKDF2 with SHA-256 can derive: its block counter has
/// thirty-two bits.
pub const MAX_DERIVED: u64 = 0x1F_FFFF_FFE0;

/// Derives `len` bytes from a password.
///
/// Trusted: `pbkdf2::pbkdf2` with `Hmac<Sha256>` fills its output from its arguments alone,
/// and fails only for keys that HMAC does not take, of which there are none. The output is
/// left unsaid but for its length.
#[verifier::external_body]
pub(crate) fn pbkdf2_sha256(password: &[u8], salt: &[u8], rounds: u32, len: usize) -> (r: Vec<u8>)
    requires
        len <= MAX_DERIVED,
    ensures
        r@ == pbkdf2_sha256_of(password@, salt@, rounds, len as nat),
        r@.len() == len,
{
    let mut result = vec![0u8; len];
    pbkdf2::pbkdf2::<Hmac<Sha256>>(password, salt, rounds, &mut result)
        .expect("HMAC takes keys of any length");
    result
}

/// Derives `len` bytes from a password.
///
/// Trusted: `pbkdf2::pbkdf2` with `Hmac<Sha512>` fills its output from its arguments alone,
/// and fails only for keys that HMAC does not take, of which there are none. The output is
/// left unsaid but for its length.
#[verifier::external_body]
pub(crate) fn pbkdf2_sha512(password: &[u8], salt: &[u8], rounds: u32, len: usize) -> (r: Vec<u8>)
    requires
        len <= MAX_DERIVED,
    ensures
        r@ == pbkdf2_sha512_of(password@, salt@, rounds, len as nat),
        r@.len() == len,
{
    let mut result = vec![0u8; len];
    pbkdf2::pbkdf2::<Hmac<Sha512>>(password, salt, rounds, &mut result)
        .expect("HMAC takes keys of any length");
    result
}

/// The HMAC-SHA-256 of a message under a key.
///
/// Trusted: `hmac::Hmac<Sha256>` computes a code of thirty-two bytes from key and message
/// alone. Which one is left unsaid.
#[verifier::external_body]
pub(crate) fn hmac_sha256(key: &[u8], data: &[u8]) -> (r: Vec<u8>)
    ensures
        r@ == hmac_sha256_of(key@, data@),
        r@.len() == 32,
{
    let mut mac = Hmac::<Sha256>::new_from_slice(key).expect("HMAC takes keys of any length");
    mac.update(data);
    mac.finalize().into_bytes().to_vec()
}

/// The HMAC-SHA-512 of a message under a key.
///
/// Trusted: `hmac::Hmac<Sha512>` computes a code of sixty-four bytes from key and message
/// alone. Which one is left unsaid.
#[verifier::external_body]
pub(crate) fn hmac_sha512(key: &[u8], data: &[u8]) -> (r: Vec<u8>)
    ensures
        r@ == hmac_sha512_of(key@, data@),
        r@.len() == 64,
{
    let mut mac = Hmac::<Sha512>::new_from_slice(key).expect("HMAC takes keys of any length");
    mac.update(data);
    mac.finalize().into_bytes().to_vec()
}

/// The base64 notation of bytes.
///
/// Trusted: the standard engine of `base64` writes bytes down so that it reads the same bytes
/// back; its notation holds no comma and no colon.
#[verifier::external_body]
pub(crate) fn base64_encode(bytes: &[u8]) -> (r: String)
    ensures
        r@ == base64_of(bytes@),
        base64_decoded(r@) == Some(bytes@),
        !r@.contains(','),
        !r@.contains(':'),
{
    STANDARD.encode(bytes)
}

/// The bytes that a text denotes in base64.
///
/// Trusted: the standard engine of `base64` decides from the text alone whether it is
/// well-formed, and which bytes it denotes.
#[verifier::external_body]
pub(crate) fn base64_decode(text: &str) -> (r: Option<Vec<u8>>)
    ensures
        match r {
            Some(bytes) => base64_decoded(text@) == Some(bytes@),
            None => base64_decoded(text@) is None,
        },
{
    STANDARD.decode(text).ok()
}

/// Random bytes.
///
/// Trusted: `rand::Rng::fill` fills a slice with random bytes; nothing is claimed of them.
#[verifier::external_body]
pub(crate) fn random_bytes(len: usize) -> (r: Vec<u8>)
    ensures
        r@.len() == len,
{
    let mut bytes = vec![0u8; len];
    rand::thread_rng().fill(&mut bytes[..]);
    bytes
}

} // verus!
