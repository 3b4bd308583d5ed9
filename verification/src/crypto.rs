//! Trusted boundary to the process-wide cryptographic primitives.
//!
//! The token signature and the stored password digests are computed by an
//! outside cryptography library. Their values are named by uninterpreted
//! functions of the inputs alone; everything the rest of the library proves
//! about credentials rests on those names being deterministic.

use vstd::prelude::*;

verus! {

/// Iteration count used for every password digest the library makes or checks.
pub const PBKDF2_ITERATIONS: u32 = 1000;

/// Largest input length handed to the digest primitives; far below the
/// underlying hash's input limit, so the primitives cannot panic.
pub const MAX_DIGEST_INPUT: usize = 0x1000_0000;

/// The 32-byte HMAC-SHA-256 tag of `msg` under `key`: a function of its
/// arguments alone.
pub uninterp spec fn hmac_sha256_of(key: Seq<u8>, msg: Seq<u8>) -> Seq<u8>;

/// The 32-byte, 1000-iteration PBKDF2-HMAC-SHA-256 derivation of `password`
/// with `salt`: a function of its arguments alone.
pub uninterp spec fn pbkdf2_sha256_of(salt: Seq<u8>, password: Seq<u8>) -> Seq<u8>;

/// Relies on ring::hmac::Key::new and ring::hmac::sign with HMAC_SHA256:
/// the tag is a 32-byte function of the key and message bytes alone.
#[verifier::external_body]
pub(crate) fn hmac_sha256(key: &[u8], msg: &[u8]) -> (r: Vec<u8>)
    requires
        key@.len() <= MAX_DIGEST_INPUT,
        msg@.len() <= MAX_DIGEST_INPUT,
    ensures
        r@ == hmac_sha256_of(key@, msg@),
        r@.len() == 32,
{
    let k = ring::hmac::Key::new(ring::hmac::HMAC_SHA256, key);
    ring::hmac::sign(&k, msg).as_ref().to_vec()
}

/// Relies on ring::pbkdf2::derive with PBKDF2_HMAC_SHA256: the buffer is
/// filled with a function of the algorithm, iteration count, salt and secret.
#[verifier::external_body]
pub(crate) fn pbkdf2_sha256(salt: &[u8], password: &[u8]) -> (r: Vec<u8>)
    requires
        salt@.len() <= MAX_DIGEST_INPUT,
        password@.len() <= MAX_DIGEST_INPUT,
    ensures
        r@ == pbkdf2_sha256_of(salt@, password@),
        r@.len() == 32,
{
    let mut out = [0u8; 32];
    ring::pbkdf2::derive(
        ring::pbkdf2::PBKDF2_HMAC_SHA256,
        core::num::NonZeroU32::new(PBKDF2_ITERATIONS).unwrap(),
        salt,
        password,
        &mut out,
    );
    out.to_vec()
}

/// Relies on ring::pbkdf2::verify: it succeeds exactly when the stored bytes
/// equal the derivation of the same length from salt and password.
#[verifier::external_body]
pub(crate) fn pbkdf2_sha256_check(salt: &[u8], password: &[u8], stored: &Vec<u8>) -> (r: bool)
    requires
        salt@.len() <= MAX_DIGEST_INPUT,
        password@.len() <= MAX_DIGEST_INPUT,
    ensures
        stored@.len() == 32 ==> r == (stored@ == pbkdf2_sha256_of(salt@, password@)),
{
    ring::pbkdf2::verify(
        ring::pbkdf2::PBKDF2_HMAC_SHA256,
        core::num::NonZeroU32::new(PBKDF2_ITERATIONS).unwrap(),
        salt,
        password,
        stored.as_slice(),
    )
        .is_ok()
}

} // verus!
