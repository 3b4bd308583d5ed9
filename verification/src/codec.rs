//! Credential codec: a claim set is serialized to a fixed binary layout,
//! framed as hex, and signed with HMAC-SHA-256 under the process secret.
//!
//! Decoding is strict: a token decodes to a claim set exactly when it is the
//! byte-exact product of encoding that claim set under the same secret.

use vstd::prelude::*;
use vstd::bytes::{
    lemma_auto_spec_u32_to_from_le_bytes, lemma_auto_spec_u64_to_from_le_bytes,
    spec_u32_from_le_bytes, spec_u32_to_le_bytes, spec_u64_from_le_bytes, spec_u64_to_le_bytes,
};
use vstd::slice::{slice_subrange, slice_to_vec};
use vstd::string::StrSliceExecFns;
use vstd::utf8::{decode_utf8, encode_utf8, valid_utf8};

use crate::auth::{ClaimsModel, JwtClaims, MAX_FIELD_BYTES, wf_claims};
use crate::crypto::{MAX_DIGEST_INPUT, hmac_sha256, hmac_sha256_of};
use crate::hex::{hex_decode, hex_encode, hex_of, lemma_hex_ascii, lemma_hex_unhex, lemma_unhex_hex,
    unhex};
use crate::text::{all_ascii, ascii_string, bytes_of_chars, chars_of_bytes};

verus! {

proof fn lemma_i64_u64_roundtrip(x: i64)
    ensures
        (x as u64) as i64 == x,
{
    assert((x as u64) as i64 == x) by (bit_vector);
}

proof fn lemma_u64_i64_roundtrip(x: u64)
    ensures
        (x as i64) as u64 == x,
{
    assert((x as i64) as u64 == x) by (bit_vector);
}

proof fn lemma_i32_u32_roundtrip(x: i32)
    ensures
        (x as u32) as i32 == x,
{
    assert((x as u32) as i32 == x) by (bit_vector);
}

proof fn lemma_u32_i32_roundtrip(x: u32)
    ensures
        (x as i32) as u32 == x,
{
    assert((x as i32) as u32 == x) by (bit_vector);
}

/// A length-prefixed field: little-endian 32-bit byte count, then the bytes.
pub open spec fn lp_bytes(p: Seq<u8>) -> Seq<u8> {
    spec_u32_to_le_bytes(p.len() as u32) + p
}

/// The serialized role list: each role UTF-8 encoded and length-prefixed.
pub open spec fn ser_roles(rs: Seq<Seq<char>>) -> Seq<u8>
    decreases rs.len(),
{
    if rs.len() == 0 {
        Seq::empty()
    } else {
        lp_bytes(encode_utf8(rs[0])) + ser_roles(rs.drop_first())
    }
}

/// The serialized claim set: iat, exp, subject id, username, role count, roles.
pub open spec fn ser_claims(c: ClaimsModel) -> Seq<u8> {
    spec_u64_to_le_bytes(c.iat as u64) + spec_u64_to_le_bytes(c.exp as u64) + spec_u32_to_le_bytes(
        c.user_id as u32,
    ) + lp_bytes(encode_utf8(c.username)) + spec_u32_to_le_bytes(c.roles.len() as u32) + ser_roles(
        c.roles,
    )
}

/// Strictly read one length-prefixed field; yields the field and the rest.
pub open spec fn parse_lp(b: Seq<u8>) -> Option<(Seq<u8>, Seq<u8>)> {
    if b.len() < 4 {
        None
    } else {
        let n = spec_u32_from_le_bytes(b.subrange(0, 4)) as int;
        if n > MAX_FIELD_BYTES || b.len() < 4 + n {
            None
        } else {
            Some((b.subrange(4, 4 + n), b.subrange(4 + n, b.len() as int)))
        }
    }
}

/// Strictly read `n` length-prefixed UTF-8 roles; yields them and the rest.
pub open spec fn parse_roles(b: Seq<u8>, n: nat) -> Option<(Seq<Seq<char>>, Seq<u8>)>
    decreases n,
{
    if n == 0 {
        Some((Seq::empty(), b))
    } else {
        match parse_lp(b) {
            None => None,
            Some((rb, rest)) => if !valid_utf8(rb) {
                None
            } else {
                match parse_roles(rest, (n - 1) as nat) {
                    None => None,
                    Some((rs, tail)) => Some((seq![decode_utf8(rb)] + rs, tail)),
                }
            },
        }
    }
}

/// Strictly parse a serialized claim set; consumes the whole sequence.
pub open spec fn parse_claims(b: Seq<u8>) -> Option<ClaimsModel> {
    if b.len() < 24 {
        None
    } else {
        let iat = spec_u64_from_le_bytes(b.subrange(0, 8)) as i64;
        let exp = spec_u64_from_le_bytes(b.subrange(8, 16)) as i64;
        let user_id = spec_u32_from_le_bytes(b.subrange(16, 20)) as i32;
        match parse_lp(b.subrange(20, b.len() as int)) {
            None => None,
            Some((ub, rest)) => if !valid_utf8(ub) || rest.len() < 4 {
                None
            } else {
                let nroles = spec_u32_from_le_bytes(rest.subrange(0, 4)) as int;
                if nroles > MAX_FIELD_BYTES {
                    None
                } else {
                    match parse_roles(rest.subrange(4, rest.len() as int), nroles as nat) {
                        None => None,
                        Some((rs, tail)) => if tail.len() != 0 {
                            None
                        } else {
                            Some(
                                ClaimsModel {
                                    iat,
                                    exp,
                                    user_id,
                                    username: decode_utf8(ub),
                                    roles: rs,
                                },
                            )
                        },
                    }
                }
            },
        }
    }
}

proof fn lemma_parse_lp_ser(p: Seq<u8>, rest: Seq<u8>)
    requires
        p.len() <= MAX_FIELD_BYTES,
    ensures
        parse_lp(lp_bytes(p) + rest) == Some((p, rest)),
{
    lemma_auto_spec_u32_to_from_le_bytes();
    let b = lp_bytes(p) + rest;
    assert(b.subrange(0, 4) =~= spec_u32_to_le_bytes(p.len() as u32));
    let n = spec_u32_from_le_bytes(b.subrange(0, 4)) as int;
    assert(n == p.len());
    assert(b.subrange(4, 4 + n) =~= p);
    assert(b.subrange(4 + n, b.len() as int) =~= rest);
}

proof fn lemma_parse_lp_strict(b: Seq<u8>, p: Seq<u8>, rest: Seq<u8>)
    requires
        parse_lp(b) == Some((p, rest)),
    ensures
        b == lp_bytes(p) + rest,
        p.len() <= MAX_FIELD_BYTES,
{
    lemma_auto_spec_u32_to_from_le_bytes();
    let n = spec_u32_from_le_bytes(b.subrange(0, 4)) as int;
    assert(spec_u32_to_le_bytes(spec_u32_from_le_bytes(b.subrange(0, 4))) == b.subrange(0, 4));
    assert(p.len() == n);
    assert(p.len() as u32 == spec_u32_from_le_bytes(b.subrange(0, 4)));
    assert(b =~= lp_bytes(p) + rest);
}

/// Serializing one more role appends its frame.
proof fn lemma_ser_roles_push(rs: Seq<Seq<char>>, x: Seq<char>)
    ensures
        ser_roles(rs.push(x)) == ser_roles(rs) + lp_bytes(encode_utf8(x)),
    decreases rs.len(),
{
    if rs.len() == 0 {
        let p = rs.push(x);
        assert(p[0] == x);
        assert(p.drop_first() =~= Seq::<Seq<char>>::empty());
        assert(ser_roles(p.drop_first()) == Seq::<u8>::empty());
        assert(ser_roles(p) == lp_bytes(encode_utf8(x)) + ser_roles(p.drop_first()));
        assert(ser_roles(p) =~= ser_roles(rs) + lp_bytes(encode_utf8(x)));
    } else {
        assert(rs.push(x).drop_first() =~= rs.drop_first().push(x));
        lemma_ser_roles_push(rs.drop_first(), x);
        assert(ser_roles(rs.push(x)) =~= ser_roles(rs) + lp_bytes(encode_utf8(x)));
    }
}

proof fn lemma_parse_roles_ser(rs: Seq<Seq<char>>, rest: Seq<u8>)
    requires
        forall|i: int| 0 <= i < rs.len() ==> #[trigger] encode_utf8(rs[i]).len() <= MAX_FIELD_BYTES,
    ensures
        parse_roles(ser_roles(rs) + rest, rs.len()) == Some((rs, rest)),
    decreases rs.len(),
{
    broadcast use vstd::utf8::encode_utf8_valid_utf8, vstd::utf8::encode_utf8_decode_utf8;

    if rs.len() == 0 {
        assert(ser_roles(rs) + rest =~= rest);
    } else {
        let e0 = encode_utf8(rs[0]);
        let b = ser_roles(rs) + rest;
        assert(b =~= lp_bytes(e0) + (ser_roles(rs.drop_first()) + rest));
        lemma_parse_lp_ser(e0, ser_roles(rs.drop_first()) + rest);
        lemma_parse_roles_ser(rs.drop_first(), rest);
        assert(seq![decode_utf8(e0)] + rs.drop_first() =~= rs);
    }
}

proof fn lemma_parse_roles_strict(b: Seq<u8>, n: nat, rs: Seq<Seq<char>>, tail: Seq<u8>)
    requires
        parse_roles(b, n) == Some((rs, tail)),
    ensures
        rs.len() == n,
        b == ser_roles(rs) + tail,
        forall|i: int| 0 <= i < rs.len() ==> #[trigger] encode_utf8(rs[i]).len() <= MAX_FIELD_BYTES,
    decreases n,
{
    broadcast use vstd::utf8::decode_utf8_encode_utf8;

    if n == 0 {
        assert(b =~= ser_roles(rs) + tail);
    } else {
        let (rb, rest) = parse_lp(b).unwrap();
        let (rs1, tail1) = parse_roles(rest, (n - 1) as nat).unwrap();
        lemma_parse_lp_strict(b, rb, rest);
        lemma_parse_roles_strict(rest, (n - 1) as nat, rs1, tail1);
        assert(rs == seq![decode_utf8(rb)] + rs1);
        assert(rs[0] == decode_utf8(rb));
        assert(encode_utf8(decode_utf8(rb)) == rb);
        assert(rs.drop_first() =~= rs1);
        assert(b =~= ser_roles(rs) + tail);
    }
}

/// Round trip: every well-formed claim set parses back from its serialization.
pub proof fn lemma_parse_ser_claims(c: ClaimsModel)
    requires
        wf_claims(c),
    ensures
        parse_claims(ser_claims(c)) == Some(c),
{
    broadcast use vstd::utf8::encode_utf8_valid_utf8, vstd::utf8::encode_utf8_decode_utf8;

    lemma_auto_spec_u64_to_from_le_bytes();
    lemma_auto_spec_u32_to_from_le_bytes();
    lemma_i64_u64_roundtrip(c.iat);
    lemma_i64_u64_roundtrip(c.exp);
    lemma_i32_u32_roundtrip(c.user_id);
    let b = ser_claims(c);
    let ub = encode_utf8(c.username);
    assert(b.len() >= 24);
    assert(b.subrange(0, 8) =~= spec_u64_to_le_bytes(c.iat as u64));
    assert(b.subrange(8, 16) =~= spec_u64_to_le_bytes(c.exp as u64));
    assert(b.subrange(16, 20) =~= spec_u32_to_le_bytes(c.user_id as u32));
    let suffix = b.subrange(20, b.len() as int);
    let roles_part = spec_u32_to_le_bytes(c.roles.len() as u32) + ser_roles(c.roles);
    assert(suffix =~= lp_bytes(ub) + roles_part);
    lemma_parse_lp_ser(ub, roles_part);
    assert(roles_part.subrange(0, 4) =~= spec_u32_to_le_bytes(c.roles.len() as u32));
    assert(roles_part.subrange(4, roles_part.len() as int) =~= ser_roles(c.roles));
    assert(ser_roles(c.roles) =~= ser_roles(c.roles) + Seq::<u8>::empty());
    lemma_parse_roles_ser(c.roles, Seq::<u8>::empty());
    assert(parse_roles(ser_roles(c.roles), c.roles.len()) == Some(
        (c.roles, Seq::<u8>::empty()),
    ));
    let parsed = parse_claims(b).unwrap();
    assert(parsed =~= c);
}

/// Every entry of a `Vec<String>` viewed deeply is the view of that entry.
pub proof fn lemma_roles_deep_view(v: Vec<String>)
    ensures
        v.deep_view().len() == v@.len(),
        forall|i: int| 0 <= i < v@.len() ==> #[trigger] v.deep_view()[i] == v@[i]@,
{
}

/// Serialize a claim set; fails exactly when a field exceeds the codec limits.
pub fn claims_bytes(c: &JwtClaims) -> (r: Option<Vec<u8>>)
    ensures
        match r {
            Some(v) => wf_claims(c@) && v@ == ser_claims(c@),
            None => !wf_claims(c@),
        },
{
    proof {
        lemma_roles_deep_view(c.roles);
    }
    let ub = c.username.as_str().as_bytes_vec();
    if ub.len() > MAX_FIELD_BYTES || c.roles.len() > MAX_FIELD_BYTES {
        return None;
    }
    let mut out: Vec<u8> = Vec::new();
    let mut t_iat = vstd::bytes::u64_to_le_bytes(c.iat as u64);
    out.append(&mut t_iat);
    let mut t_exp = vstd::bytes::u64_to_le_bytes(c.exp as u64);
    out.append(&mut t_exp);
    let mut t_uid = vstd::bytes::u32_to_le_bytes(c.user_id as u32);
    out.append(&mut t_uid);
    let mut t_ulen = vstd::bytes::u32_to_le_bytes(ub.len() as u32);
    out.append(&mut t_ulen);
    let mut ub_m = ub;
    out.append(&mut ub_m);
    let mut t_nroles = vstd::bytes::u32_to_le_bytes(c.roles.len() as u32);
    out.append(&mut t_nroles);
    let ghost prefix = out@;
    let mut i: usize = 0;
    while i < c.roles.len()
        invariant
            i <= c.roles@.len(),
            c.roles@.len() <= MAX_FIELD_BYTES,
            out@ == prefix + ser_roles(c@.roles.take(i as int)),
            forall|k: int|
                0 <= k < i ==> #[trigger] encode_utf8(c@.roles[k]).len() <= MAX_FIELD_BYTES,
            c@.roles.len() == c.roles@.len(),
            forall|k: int| 0 <= k < c.roles@.len() ==> #[trigger] c@.roles[k] == c.roles@[k]@,
        decreases c.roles@.len() - i,
    {
        let rb = c.roles[i].as_str().as_bytes_vec();
        if rb.len() > MAX_FIELD_BYTES {
            proof {
                assert(encode_utf8(c@.roles[i as int]).len() > MAX_FIELD_BYTES);
            }
            return None;
        }
        let mut t_rlen = vstd::bytes::u32_to_le_bytes(rb.len() as u32);
        out.append(&mut t_rlen);
        let ghost rbv = rb@;
        let mut rb_m = rb;
        out.append(&mut rb_m);
        proof {
            lemma_ser_roles_push(c@.roles.take(i as int), c@.roles[i as int]);
            assert(c@.roles.take(i + 1 as int) =~= c@.roles.take(i as int).push(
                c@.roles[i as int],
            ));
            assert(lp_bytes(encode_utf8(c@.roles[i as int])) =~= spec_u32_to_le_bytes(
                rbv.len() as u32,
            ) + rbv);
            assert(out@ =~= prefix + ser_roles(c@.roles.take(i + 1 as int)));
        }
        i = i + 1;
    }
    proof {
        assert(c@.roles.take(c.roles@.len() as int) =~= c@.roles);
        assert(out@ =~= ser_claims(c@));
    }
    Some(out)
}

/// Strictly parse a serialized claim set; the exec twin of [`parse_claims`].
#[verifier::loop_isolation(false)]
pub fn parse_claims_vec(b: &Vec<u8>) -> (r: Option<JwtClaims>)
    ensures
        match r {
            Some(c) => parse_claims(b@) == Some(c@),
            None => parse_claims(b@) is None,
        },
{
    if b.len() < 24 {
        return None;
    }
    let iat = #[verifier::truncate] (vstd::bytes::u64_from_le_bytes(slice_subrange(b.as_slice(), 0, 8)) as i64);
    let exp = #[verifier::truncate] (vstd::bytes::u64_from_le_bytes(slice_subrange(b.as_slice(), 8, 16)) as i64);
    let user_id = #[verifier::truncate] (vstd::bytes::u32_from_le_bytes(slice_subrange(b.as_slice(), 16, 20)) as i32);
    let ghost suffix = b@.subrange(20, b@.len() as int);
    let ulen_w = vstd::bytes::u32_from_le_bytes(slice_subrange(b.as_slice(), 20, 24));
    proof {
        assert(b@.subrange(20, 24) =~= suffix.subrange(0, 4));
    }
    if ulen_w > MAX_FIELD_BYTES as u32 {
        return None;
    }
    let ulen = ulen_w as usize;
    if b.len() - 24 < ulen {
        return None;
    }
    let ub = slice_to_vec(slice_subrange(b.as_slice(), 24, 24 + ulen));
    proof {
        assert(ub@ =~= suffix.subrange(4, 4 + ulen as int));
        assert(parse_lp(suffix) == Some(
            (
                suffix.subrange(4, 4 + ulen as int),
                suffix.subrange(4 + ulen as int, suffix.len() as int),
            ),
        ));
    }
    let ghost rest = suffix.subrange(4 + ulen as int, suffix.len() as int);
    let username = match crate::text::string_from_utf8(ub) {
        Some(s) => s,
        None => {
            return None;
        },
    };
    let mut pos: usize = 24 + ulen;
    if b.len() - pos < 4 {
        return None;
    }
    let nroles_w = vstd::bytes::u32_from_le_bytes(slice_subrange(b.as_slice(), pos, pos + 4));
    proof {
        assert(b@.subrange(pos as int, pos + 4 as int) =~= rest.subrange(0, 4));
    }
    if nroles_w > MAX_FIELD_BYTES as u32 {
        return None;
    }
    let nroles = nroles_w as usize;
    pos = pos + 4;
    let ghost roles_start = b@.subrange(pos as int, b@.len() as int);
    proof {
        assert(roles_start =~= rest.subrange(4, rest.len() as int));
    }
    let mut roles: Vec<String> = Vec::new();
    let mut i: usize = 0;
    while i < nroles
        invariant
            i <= nroles,
            nroles <= MAX_FIELD_BYTES,
            24 <= pos <= b@.len(),
            roles.deep_view().len() == i,
            parse_roles(roles_start, nroles as nat) == match parse_roles(
                b@.subrange(pos as int, b@.len() as int),
                (nroles - i) as nat,
            ) {
                None => None::<(Seq<Seq<char>>, Seq<u8>)>,
                Some((rs, tail)) => Some((roles.deep_view() + rs, tail)),
            },
        decreases nroles - i,
    {
        let ghost cur = b@.subrange(pos as int, b@.len() as int);
        if b.len() - pos < 4 {
            proof {
                assert(parse_lp(cur) is None);
                assert(parse_roles(cur, (nroles - i) as nat) is None);
            }
            return None;
        }
        let rlen_w = vstd::bytes::u32_from_le_bytes(slice_subrange(b.as_slice(), pos, pos + 4));
        proof {
            assert(b@.subrange(pos as int, pos + 4 as int) =~= cur.subrange(0, 4));
        }
        if rlen_w > MAX_FIELD_BYTES as u32 {
            proof {
                assert(parse_lp(cur) is None);
                assert(parse_roles(cur, (nroles - i) as nat) is None);
            }
            return None;
        }
        let rlen = rlen_w as usize;
        if b.len() - pos - 4 < rlen {
            proof {
                assert(parse_lp(cur) is None);
                assert(parse_roles(cur, (nroles - i) as nat) is None);
            }
            return None;
        }
        let rb = slice_to_vec(slice_subrange(b.as_slice(), pos + 4, pos + 4 + rlen));
        proof {
            assert(rb@ =~= cur.subrange(4, 4 + rlen as int));
            assert(parse_lp(cur) == Some(
                (cur.subrange(4, 4 + rlen as int), cur.subrange(4 + rlen as int, cur.len() as int)),
            ));
        }
        let ghost rbv = rb@;
        let role = match crate::text::string_from_utf8(rb) {
            Some(s) => s,
            None => {
                proof {
                    assert(!valid_utf8(rbv));
                    assert(parse_roles(cur, (nroles - i) as nat) is None);
                }
                return None;
            },
        };
        let ghost old_roles = roles.deep_view();
        roles.push(role);
        pos = pos + 4 + rlen;
        proof {
            lemma_roles_deep_view(roles);
            assert(roles.deep_view() =~= old_roles.push(role@));
            let next = cur.subrange(4 + rlen as int, cur.len() as int);
            assert(b@.subrange(pos as int, b@.len() as int) =~= next);
            let pr = parse_roles(next, (nroles - i - 1) as nat);
            assert(parse_roles(cur, (nroles - i) as nat) == match pr {
                None => None::<(Seq<Seq<char>>, Seq<u8>)>,
                Some((rs, tail)) => Some((seq![role@] + rs, tail)),
            });
            if pr is Some {
                let (rs, tail) = pr.unwrap();
                assert(old_roles + (seq![role@] + rs) =~= roles.deep_view() + rs);
            }
        }
        i = i + 1;
    }
    if pos != b.len() {
        proof {
            assert(b@.subrange(pos as int, b@.len() as int).len() != 0);
        }
        return None;
    }
    let c = JwtClaims { iat, exp, user_id, username, roles };
    proof {
        assert(b@.subrange(pos as int, b@.len() as int).len() == 0);
        assert(parse_roles(roles_start, nroles as nat) == Some(
            (c.roles.deep_view(), b@.subrange(pos as int, b@.len() as int)),
        ));
        assert(parse_claims(b@) == Some(c@));
    }
    Some(c)
}

/// Strictness: a byte sequence that parses is the serialization of its parse,
/// and that parse is well formed.
pub proof fn lemma_ser_parse_claims(b: Seq<u8>, c: ClaimsModel)
    requires
        parse_claims(b) == Some(c),
    ensures
        b == ser_claims(c),
        wf_claims(c),
{
    broadcast use vstd::utf8::decode_utf8_encode_utf8;

    lemma_auto_spec_u64_to_from_le_bytes();
    lemma_auto_spec_u32_to_from_le_bytes();
    lemma_u64_i64_roundtrip(spec_u64_from_le_bytes(b.subrange(0, 8)));
    lemma_u64_i64_roundtrip(spec_u64_from_le_bytes(b.subrange(8, 16)));
    lemma_u32_i32_roundtrip(spec_u32_from_le_bytes(b.subrange(16, 20)));
    let suffix = b.subrange(20, b.len() as int);
    let (ub, rest) = parse_lp(suffix).unwrap();
    lemma_parse_lp_strict(suffix, ub, rest);
    let nroles = spec_u32_from_le_bytes(rest.subrange(0, 4)) as int;
    let roles_b = rest.subrange(4, rest.len() as int);
    let (rs, tail) = parse_roles(roles_b, nroles as nat).unwrap();
    lemma_parse_roles_strict(roles_b, nroles as nat, rs, tail);
    assert(c.roles == rs);
    assert(c.roles.len() as u32 == spec_u32_from_le_bytes(rest.subrange(0, 4)));
    assert(encode_utf8(c.username) == ub);
    assert(roles_b =~= ser_roles(rs) + tail);
    assert(tail.len() == 0);
    assert(ser_roles(rs) + tail =~= ser_roles(rs));
    assert(rest =~= rest.subrange(0, 4) + roles_b);
    assert(b =~= b.subrange(0, 8) + b.subrange(8, 16) + b.subrange(16, 20) + suffix);
    assert(b =~= ser_claims(c));
}

/// Structural failure of `decode`: never distinguished further, so a caller
/// cannot learn why a credential was rejected.
#[derive(Clone, Copy, Debug, PartialEq, Eq, Structural)]
pub struct DecodeError;

/// The serialization of a well-formed claim set stays comfortably below the
/// digest primitives' input limit.
proof fn lemma_ser_roles_len(rs: Seq<Seq<char>>)
    requires
        forall|i: int| 0 <= i < rs.len() ==> #[trigger] encode_utf8(rs[i]).len() <= MAX_FIELD_BYTES,
    ensures
        ser_roles(rs).len() <= rs.len() * (4 + MAX_FIELD_BYTES),
    decreases rs.len(),
{
    lemma_auto_spec_u32_to_from_le_bytes();
    if rs.len() == 0 {
    } else {
        lemma_ser_roles_len(rs.drop_first());
        assert(encode_utf8(rs[0]).len() <= MAX_FIELD_BYTES);
        assert((rs.len() - 1) * (4 + MAX_FIELD_BYTES) + (4 + MAX_FIELD_BYTES) == rs.len() * (4
            + MAX_FIELD_BYTES)) by (nonlinear_arith);
    }
}

pub proof fn lemma_ser_claims_len(c: ClaimsModel)
    requires
        wf_claims(c),
    ensures
        ser_claims(c).len() <= 0x400_0000,
{
    lemma_auto_spec_u64_to_from_le_bytes();
    lemma_auto_spec_u32_to_from_le_bytes();
    lemma_ser_roles_len(c.roles);
    assert(c.roles.len() * (4 + MAX_FIELD_BYTES) <= MAX_FIELD_BYTES * (4 + MAX_FIELD_BYTES))
        by (nonlinear_arith)
        requires
            c.roles.len() <= MAX_FIELD_BYTES,
    ;
}

/// The first dot in a byte sequence, if any.
pub open spec fn find_dot(b: Seq<u8>) -> Option<int>
    decreases b.len(),
{
    if b.len() == 0 {
        None
    } else if b[0] == 46 {
        Some(0)
    } else {
        match find_dot(b.drop_first()) {
            None => None,
            Some(i) => Some(i + 1),
        }
    }
}

proof fn lemma_find_dot_found(b: Seq<u8>, i: int)
    requires
        0 <= i < b.len(),
        b[i] == 46,
        forall|j: int| 0 <= j < i ==> b[j] != 46,
    ensures
        find_dot(b) == Some(i),
    decreases i,
{
    if i == 0 {
    } else {
        assert(b[0] != 46);
        lemma_find_dot_found(b.drop_first(), i - 1);
    }
}

proof fn lemma_find_dot_none(b: Seq<u8>)
    requires
        forall|j: int| 0 <= j < b.len() ==> b[j] != 46,
    ensures
        find_dot(b) is None,
    decreases b.len(),
{
    if b.len() == 0 {
    } else {
        lemma_find_dot_none(b.drop_first());
    }
}

proof fn lemma_find_dot_split(b: Seq<u8>, i: int)
    requires
        find_dot(b) == Some(i),
    ensures
        0 <= i < b.len(),
        b[i] == 46,
        forall|j: int| 0 <= j < i ==> b[j] != 46,
    decreases b.len(),
{
    if b.len() == 0 {
    } else if b[0] == 46 {
    } else {
        lemma_find_dot_split(b.drop_first(), i - 1);
        assert forall|j: int| 0 <= j < i implies b[j] != 46 by {
            if j > 0 {
                assert(b.drop_first()[j - 1] != 46);
            }
        }
    }
}

/// The token bytes for a claim set under a secret: the hex-framed claims,
/// a dot, and the hex-framed HMAC-SHA-256 tag of that first part.
pub open spec fn spec_token_bytes(secret: Seq<u8>, c: ClaimsModel) -> Seq<u8> {
    let p = hex_of(ser_claims(c));
    p + seq![46u8] + hex_of(hmac_sha256_of(secret, p))
}

/// Strictly decode token bytes: succeeds exactly on byte-exact products of
/// the encoder under the same secret.
pub open spec fn spec_decode_bytes(secret: Seq<u8>, tb: Seq<u8>) -> Option<ClaimsModel> {
    match find_dot(tb) {
        None => None,
        Some(i) => {
            if i > MAX_DIGEST_INPUT {
                None
            } else {
                let p = tb.subrange(0, i);
                let s = tb.subrange(i + 1, tb.len() as int);
                match unhex(p) {
                    None => None,
                    Some(payload) => match unhex(s) {
                        None => None,
                        Some(sig) => if sig != hmac_sha256_of(secret, p) {
                            None
                        } else {
                            parse_claims(payload)
                        },
                    },
                }
            }
        },
    }
}

/// Strictly decode a token string; non-ASCII strings never decode.
pub open spec fn spec_decode(secret: Seq<u8>, t: Seq<char>) -> Option<ClaimsModel> {
    if vstd::utf8::is_ascii_chars(t) {
        spec_decode_bytes(secret, bytes_of_chars(t))
    } else {
        None
    }
}

/// Round trip: a token built from a well-formed claim set decodes back to it.
pub proof fn lemma_decode_token(secret: Seq<u8>, c: ClaimsModel)
    requires
        wf_claims(c),
    ensures
        spec_decode_bytes(secret, spec_token_bytes(secret, c)) == Some(c),
{
    let p = hex_of(ser_claims(c));
    let s = hex_of(hmac_sha256_of(secret, p));
    let tb = spec_token_bytes(secret, c);
    lemma_hex_ascii(ser_claims(c));
    lemma_hex_ascii(hmac_sha256_of(secret, p));
    assert(tb[p.len() as int] == 46);
    assert forall|j: int| 0 <= j < p.len() implies tb[j] != 46 by {
        assert(tb[j] == p[j]);
    }
    lemma_find_dot_found(tb, p.len() as int);
    lemma_ser_claims_len(c);
    assert(p.len() <= MAX_DIGEST_INPUT);
    assert(tb.subrange(0, p.len() as int) =~= p);
    assert(tb.subrange(p.len() as int + 1, tb.len() as int) =~= s);
    lemma_unhex_hex(ser_claims(c));
    lemma_unhex_hex(hmac_sha256_of(secret, p));
    lemma_parse_ser_claims(c);
}

/// Strictness: token bytes that decode are the byte-exact product of
/// encoding the decoded claim set under the same secret.
#[verifier::spinoff_prover]
#[verifier::rlimit(100)]
pub proof fn lemma_decode_strict(secret: Seq<u8>, tb: Seq<u8>, c: ClaimsModel)
    requires
        spec_decode_bytes(secret, tb) == Some(c),
    ensures
        tb == spec_token_bytes(secret, c),
        wf_claims(c),
{
    let i = find_dot(tb).unwrap();
    lemma_find_dot_split(tb, i);
    let p = tb.subrange(0, i);
    let s = tb.subrange(i + 1, tb.len() as int);
    let payload = unhex(p).unwrap();
    let sig = unhex(s).unwrap();
    lemma_hex_unhex(p, payload);
    lemma_hex_unhex(s, sig);
    lemma_ser_parse_claims(payload, c);
    assert(tb == spec_token_bytes(secret, c)) by {
        assert(p == hex_of(ser_claims(c)));
        assert(s == hex_of(hmac_sha256_of(secret, p)));
        assert(spec_token_bytes(secret, c) == p + seq![46u8] + s);
        assert(tb =~= p + seq![46u8] + s);
    }
}

/// Compare two byte vectors.
fn bytes_eq(a: &Vec<u8>, b: &Vec<u8>) -> (r: bool)
    ensures
        r == (a@ == b@),
{
    if a.len() != b.len() {
        proof {
            assert(a@ != b@);
        }
        return false;
    }
    let mut i: usize = 0;
    while i < a.len()
        invariant
            i <= a@.len(),
            a@.len() == b@.len(),
            forall|k: int| 0 <= k < i ==> a@[k] == b@[k],
        decreases a@.len() - i,
    {
        if a[i] != b[i] {
            proof {
                assert(a@[i as int] != b@[i as int]);
            }
            return false;
        }
        i = i + 1;
    }
    proof {
        assert(a@ =~= b@);
    }
    true
}

/// Sign and serialize a claim set under the process secret; fails exactly
/// when the claim set exceeds the codec's field limits.
pub fn encode(claims: &JwtClaims, secret: &[u8]) -> (r: Option<String>)
    requires
        secret@.len() <= MAX_DIGEST_INPUT,
    ensures
        match r {
            Some(s) => wf_claims(claims@) && s@ == chars_of_bytes(
                spec_token_bytes(secret@, claims@),
            ),
            None => !wf_claims(claims@),
        },
{
    let payload = match claims_bytes(claims) {
        Some(v) => v,
        None => {
            return None;
        },
    };
    proof {
        lemma_ser_claims_len(claims@);
    }
    let hexp = hex_encode(&payload);
    let tag = hmac_sha256(secret, hexp.as_slice());
    let mut hexsig = hex_encode(&tag);
    let mut tb = hexp;
    tb.push(46);
    tb.append(&mut hexsig);
    proof {
        lemma_hex_ascii(payload@);
        lemma_hex_ascii(tag@);
        assert(tb@ =~= spec_token_bytes(secret@, claims@));
        let p = hex_of(ser_claims(claims@));
        let s = hex_of(hmac_sha256_of(secret@, p));
        assert forall|k: int| 0 <= k < tb@.len() implies #[trigger] tb@[k] < 128 by {
            if k < p.len() {
                assert(tb@[k] == p[k]);
            } else if k == p.len() {
                assert(tb@[k] == 46);
            } else {
                assert(tb@[k] == s[k - p.len() - 1]);
            }
        }
    }
    Some(ascii_string(tb))
}

/// Verify and parse a bearer token under the process secret. Fails with one
/// undifferentiated error on anything that is not a byte-exact product of
/// [`encode`] under the same secret.
pub fn decode(token: &str, secret: &[u8]) -> (r: Result<JwtClaims, DecodeError>)
    requires
        secret@.len() <= MAX_DIGEST_INPUT,
    ensures
        match r {
            Ok(c) => spec_decode(secret@, token@) == Some(c@),
            Err(_) => spec_decode(secret@, token@) is None,
        },
{
    broadcast use vstd::string::is_ascii_spec_bytes;

    if !token.is_ascii() {
        return Err(DecodeError);
    }
    let tb = token.as_bytes_vec();
    proof {
        assert(tb@ =~= bytes_of_chars(token@));
    }
    decode_bytes(&tb, secret)
}

/// Verify and parse token bytes; the byte-level body of [`decode`].
#[verifier::loop_isolation(false)]
pub fn decode_bytes(tb: &Vec<u8>, secret: &[u8]) -> (r: Result<JwtClaims, DecodeError>)
    requires
        secret@.len() <= MAX_DIGEST_INPUT,
    ensures
        match r {
            Ok(c) => spec_decode_bytes(secret@, tb@) == Some(c@),
            Err(_) => spec_decode_bytes(secret@, tb@) is None,
        },
{
    let mut dot: usize = 0;
    let mut found = false;
    while dot < tb.len() && !found
        invariant
            dot <= tb@.len(),
            forall|j: int| 0 <= j < dot ==> tb@[j] != 46,
            found ==> dot < tb@.len() && tb@[dot as int] == 46,
        decreases tb@.len() - dot + (if found {
            0int
        } else {
            1int
        }),
    {
        if tb[dot] == 46 {
            found = true;
        } else {
            dot = dot + 1;
        }
    }
    if !found {
        proof {
            lemma_find_dot_none(tb@);
        }
        return Err(DecodeError);
    }
    proof {
        lemma_find_dot_found(tb@, dot as int);
    }
    if dot > MAX_DIGEST_INPUT {
        return Err(DecodeError);
    }
    let p1 = slice_to_vec(slice_subrange(tb.as_slice(), 0, dot));
    let s1 = slice_to_vec(slice_subrange(tb.as_slice(), dot + 1, tb.len()));
    proof {
        assert(p1@ =~= tb@.subrange(0, dot as int));
        assert(s1@ =~= tb@.subrange(dot + 1 as int, tb@.len() as int));
    }
    let payload = match hex_decode(&p1) {
        Some(v) => v,
        None => {
            return Err(DecodeError);
        },
    };
    let sig = match hex_decode(&s1) {
        Some(v) => v,
        None => {
            return Err(DecodeError);
        },
    };
    let tag = hmac_sha256(secret, p1.as_slice());
    if !bytes_eq(&sig, &tag) {
        return Err(DecodeError);
    }
    match parse_claims_vec(&payload) {
        Some(c) => Ok(c),
        None => Err(DecodeError),
    }
}

} // verus!
