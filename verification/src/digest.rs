//! Password digesting: salted PBKDF2-HMAC-SHA-256 credentials.

use vstd::prelude::*;
use vstd::string::StrSliceExecFns;
use vstd::utf8::encode_utf8;

use crate::crypto::{MAX_DIGEST_INPUT, pbkdf2_sha256, pbkdf2_sha256_check, pbkdf2_sha256_of};

verus! {

/// The salt for a user's digest: the process salt followed by the username.
pub open spec fn salt_bytes(digest_salt: Seq<char>, username: Seq<char>) -> Seq<u8> {
    encode_utf8(digest_salt) + encode_utf8(username)
}

/// Whether a string's UTF-8 form stays within half the digest input limit,
/// so that a salt built from two such strings fits it.
pub open spec fn fits_half(s: Seq<char>) -> bool {
    encode_utf8(s).len() <= MAX_DIGEST_INPUT / 2
}

/// Whether salt parts and password fit the digest primitive's input limits.
pub open spec fn digest_fits(digest_salt: Seq<char>, username: Seq<char>, password: Seq<
    char,
>) -> bool {
    &&& fits_half(digest_salt)
    &&& fits_half(username)
    &&& encode_utf8(password).len() <= MAX_DIGEST_INPUT
}

/// Build the salt bytes for a username.
fn salt(digest_salt: &str, username: &str) -> (r: Vec<u8>)
    ensures
        r@ == salt_bytes(digest_salt@, username@),
{
    let mut s = digest_salt.as_bytes_vec();
    let mut u = username.as_bytes_vec();
    s.append(&mut u);
    s
}

/// Derive the stored credential for a username and password.
pub fn digest_password(digest_salt: &str, username: &str, password: &str) -> (r: Vec<u8>)
    requires
        digest_fits(digest_salt@, username@, password@),
    ensures
        r@ == pbkdf2_sha256_of(salt_bytes(digest_salt@, username@), encode_utf8(password@)),
        r@.len() == 32,
{
    let s = salt(digest_salt, username);
    pbkdf2_sha256(s.as_slice(), password.as_bytes())
}

/// Check an attempted password against a stored credential: true exactly
/// when the stored bytes are the 32-byte derivation of the attempt.
pub fn verify_password(digest_salt: &str, username: &str, stored: &Vec<u8>, attempted: &str) -> (r:
    bool)
    requires
        digest_fits(digest_salt@, username@, attempted@),
    ensures
        r == (stored@.len() == 32 && stored@ == pbkdf2_sha256_of(
            salt_bytes(digest_salt@, username@),
            encode_utf8(attempted@),
        )),
{
    if stored.len() != 32 {
        return false;
    }
    let s = salt(digest_salt, username);
    pbkdf2_sha256_check(s.as_slice(), attempted.as_bytes(), stored)
}

} // verus!
