//! The library's cross-cutting guarantees, stated and proved once over the
//! specification functions that the public contracts use.

use vstd::prelude::*;

use crate::auth::ClaimsModel;
use crate::auth::wf_claims;
use crate::codec::spec_token_bytes;
use crate::guard::{
    Resolution, TokenModel, bearer_prefix, is_admin_model, permits, spec_header_claims,
    spec_resolution, strip_bearer_bytes, token_model_of,
};
use crate::hex::{hex_of, lemma_hex_ascii};
use crate::text::{all_ascii, bytes_of_chars, chars_of_bytes, lemma_bytes_chars_roundtrip};

verus! {

/// The bytes of an encoded token are ASCII, and the first one is a hex
/// digit, so a token never starts with the `Bearer ` scheme prefix.
proof fn lemma_token_bytes_shape(secret: Seq<u8>, c: ClaimsModel)
    requires
        wf_claims(c),
    ensures
        all_ascii(spec_token_bytes(secret, c)),
        strip_bearer_bytes(spec_token_bytes(secret, c)) == spec_token_bytes(secret, c),
{
    let p = hex_of(crate::codec::ser_claims(c));
    let s = hex_of(crate::crypto::hmac_sha256_of(secret, p));
    let tb = spec_token_bytes(secret, c);
    lemma_hex_ascii(crate::codec::ser_claims(c));
    lemma_hex_ascii(crate::crypto::hmac_sha256_of(secret, p));
    assert forall|k: int| 0 <= k < tb.len() implies #[trigger] tb[k] < 128 by {
        if k < p.len() {
            assert(tb[k] == p[k]);
        } else if k == p.len() {
            assert(tb[k] == 46);
        } else {
            assert(tb[k] == s[k - p.len() - 1]);
        }
    }
    assert(crate::codec::ser_claims(c).len() >= 28) by {
        vstd::bytes::lemma_auto_spec_u64_to_from_le_bytes();
        vstd::bytes::lemma_auto_spec_u32_to_from_le_bytes();
    }
    assert(p.len() >= 2);
    assert(tb[0] == p[0]);
    assert(tb[0] != 66);
    if tb.len() >= 7 && tb.subrange(0, 7) == bearer_prefix() {
        assert(tb.subrange(0, 7)[0] == 66);
        assert(false);
    }
}

/// A `Bearer `-prefixed header value strips down to the token itself.
proof fn lemma_strip_bearer_once(tb: Seq<u8>)
    requires
        strip_bearer_bytes(tb) == tb,
    ensures
        strip_bearer_bytes(bearer_prefix() + tb) == tb,
{
    let h = bearer_prefix() + tb;
    assert(h.subrange(0, 7) =~= bearer_prefix());
    assert(h.subrange(7, h.len() as int) =~= tb);
}

/// The token that `encode` produces — bare or behind the `Bearer ` scheme —
/// presents its own claim set to the resolver.
proof fn lemma_encoded_header_claims(secret: Seq<u8>, c: ClaimsModel)
    requires
        wf_claims(c),
    ensures
        spec_header_claims(secret, chars_of_bytes(spec_token_bytes(secret, c))) == Some(c),
        spec_header_claims(secret, chars_of_bytes(bearer_prefix() + spec_token_bytes(secret, c)))
            == Some(c),
{
    let tb = spec_token_bytes(secret, c);
    lemma_token_bytes_shape(secret, c);
    lemma_strip_bearer_once(tb);
    lemma_bytes_chars_roundtrip(tb);
    crate::codec::lemma_decode_token(secret, c);
    assert(all_ascii(bearer_prefix() + tb)) by {
        assert forall|k: int| 0 <= k < (bearer_prefix() + tb).len() implies #[trigger] (
        bearer_prefix() + tb)[k] < 128 by {
            if k >= 7 {
                assert((bearer_prefix() + tb)[k] == tb[k - 7]);
            }
        }
    }
    lemma_bytes_chars_roundtrip(bearer_prefix() + tb);
}

/// Round trip: for every claim set that is not yet expired, presenting the
/// token that `encode` produces — bare or behind the `Bearer ` scheme —
/// resolves to exactly that claim set, so the principal carries the same
/// subject id, subject name and role data.
pub proof fn lemma_round_trip_resolution(secret: Seq<u8>, c: ClaimsModel, now: i64)
    requires
        wf_claims(c),
        now < c.exp,
    ensures
        spec_resolution(secret, Some(chars_of_bytes(spec_token_bytes(secret, c))), now)
            == Resolution::Granted(c),
        spec_resolution(
            secret,
            Some(chars_of_bytes(bearer_prefix() + spec_token_bytes(secret, c))),
            now,
        ) == Resolution::Granted(c),
{
    lemma_encoded_header_claims(secret, c);
}

/// Expiry of an issued credential: the token that `encode` produced for a
/// claim set whose expiry instant has been reached — its signature entirely
/// valid — resolves to the expired-token failure.
pub proof fn lemma_encoded_expired_rejected(secret: Seq<u8>, c: ClaimsModel, now: i64)
    requires
        wf_claims(c),
        now >= c.exp,
    ensures
        spec_resolution(secret, Some(chars_of_bytes(spec_token_bytes(secret, c))), now)
            == Resolution::ExpiredToken,
        spec_resolution(
            secret,
            Some(chars_of_bytes(bearer_prefix() + spec_token_bytes(secret, c))),
            now,
        ) == Resolution::ExpiredToken,
{
    lemma_encoded_header_claims(secret, c);
}

/// Expiry dominates: any header value whose credential decodes to a claim
/// set whose expiry instant has been reached resolves to the expired-token
/// failure — never to a principal.
pub proof fn lemma_expired_rejected(secret: Seq<u8>, h: Seq<char>, c: ClaimsModel, now: i64)
    requires
        spec_header_claims(secret, h) == Some(c),
        now >= c.exp,
    ensures
        spec_resolution(secret, Some(h), now) == Resolution::ExpiredToken,
{
}

/// Strictness of the codec: when a header value resolves to a claim set at
/// all, the credential behind the scheme prefix is the byte-exact product
/// of `encode` for that claim set under the same secret. Contrapositive:
/// any other string fails decoding, and the resolution classifies every
/// such failure as the one undifferentiated invalid-token error.
pub proof fn lemma_only_encoded_tokens_resolve(secret: Seq<u8>, h: Seq<char>, c: ClaimsModel)
    requires
        spec_header_claims(secret, h) == Some(c),
    ensures
        wf_claims(c),
        strip_bearer_bytes(bytes_of_chars(h)) == spec_token_bytes(secret, c),
{
    crate::codec::lemma_decode_strict(secret, strip_bearer_bytes(bytes_of_chars(h)), c);
}

/// A header value that decodes to no claim set resolves to exactly the
/// invalid-token failure, whatever made it undecodable.
pub proof fn lemma_undecodable_is_invalid(secret: Seq<u8>, h: Seq<char>, now: i64)
    requires
        spec_header_claims(secret, h) is None,
    ensures
        spec_resolution(secret, Some(h), now) == Resolution::InvalidToken,
{
}

/// Idempotence: resolution is a function of the header value, the secret
/// and the instant alone, so resolving the same valid credential twice
/// grants identical principals.
pub proof fn lemma_resolution_idempotent(
    secret: Seq<u8>,
    header: Option<Seq<char>>,
    now: i64,
    c1: ClaimsModel,
    c2: ClaimsModel,
)
    requires
        spec_resolution(secret, header, now) == Resolution::Granted(c1),
        spec_resolution(secret, header, now) == Resolution::Granted(c2),
    ensures
        c1 == c2,
        token_model_of(c1) == token_model_of(c2),
{
}

/// Ownership grants access: a principal always passes the evaluation for
/// its own subject id, with no role needed.
pub proof fn lemma_ownership_grants(m: TokenModel, id: i32)
    requires
        m.user_id == id,
    ensures
        permits(m, id),
{
}

/// Ownership is enforced: a principal that is neither the owner nor an
/// administrator is denied.
pub proof fn lemma_ownership_denied(m: TokenModel, id: i32)
    requires
        m.user_id != id,
        !is_admin_model(m),
    ensures
        !permits(m, id),
{
}

/// Administrator override: a principal carrying the administrator role
/// passes the evaluation for every subject id.
pub proof fn lemma_admin_override(m: TokenModel, id: i32)
    requires
        is_admin_model(m),
    ensures
        permits(m, id),
{
}

} // verus!
