//! The signed claim set carried by a bearer credential.

use vstd::prelude::*;
use vstd::utf8::encode_utf8;

verus! {

/// Upper bound on the encoded size of each variable-length claim field, and
/// on the number of roles; the codec rejects anything larger.
pub const MAX_FIELD_BYTES: usize = 4096;

/// Mathematical content of a claim set.
#[verifier::ext_equal]
pub ghost struct ClaimsModel {
    pub iat: i64,
    pub exp: i64,
    pub user_id: i32,
    pub username: Seq<char>,
    pub roles: Seq<Seq<char>>,
}

/// A claim set: subject identity, issue and expiry instants (seconds since
/// the epoch), and role data. Immutable once issued.
pub struct JwtClaims {
    pub iat: i64,
    pub exp: i64,
    pub user_id: i32,
    pub username: String,
    pub roles: Vec<String>,
}

impl View for JwtClaims {
    type V = ClaimsModel;

    open spec fn view(&self) -> ClaimsModel {
        ClaimsModel {
            iat: self.iat,
            exp: self.exp,
            user_id: self.user_id,
            username: self.username@,
            roles: self.roles.deep_view(),
        }
    }
}

/// Whether a claim set fits the codec's field-size limits; `encode` succeeds
/// exactly on such claim sets.
pub open spec fn wf_claims(c: ClaimsModel) -> bool {
    &&& encode_utf8(c.username).len() <= MAX_FIELD_BYTES
    &&& c.roles.len() <= MAX_FIELD_BYTES
    &&& forall|i: int|
        0 <= i < c.roles.len() ==> #[trigger] encode_utf8(c.roles[i]).len() <= MAX_FIELD_BYTES
}

impl JwtClaims {
    /// Whether the credential's expiry instant has been reached at `now`.
    pub fn is_expired(&self, now: i64) -> (r: bool)
        ensures
            r == (now >= self.exp),
    {
        now >= self.exp
    }
}

/// Seconds in a day; issued credentials live for seven of these.
pub const DAY: i64 = 60 * 60 * 24;

/// The claim set issued at instant `now` for an account: valid for seven
/// days, carrying the account's identity and, for administrators, the
/// administrator role.
pub open spec fn login_claims(u: crate::users::UserModel, now: i64) -> ClaimsModel {
    ClaimsModel {
        iat: now,
        exp: (now + 7 * DAY) as i64,
        user_id: u.id,
        username: u.username,
        roles: if u.admin {
            seq!["admin"@]
        } else {
            Seq::empty()
        },
    }
}

/// Issue a signed bearer credential for an authenticated account; fails
/// exactly when the claim set cannot be serialized.
pub fn login(user: &crate::users::User, secret: &[u8], now: i64) -> (r: Result<
    String,
    crate::errors::Error,
>)
    requires
        secret@.len() <= crate::crypto::MAX_DIGEST_INPUT,
        now + 7 * DAY <= i64::MAX,
    ensures
        match r {
            Ok(s) => wf_claims(login_claims(user@, now)) && s@ == crate::text::chars_of_bytes(
                crate::codec::spec_token_bytes(secret@, login_claims(user@, now)),
            ),
            Err(e) => !wf_claims(login_claims(user@, now)) && e.code
                == crate::errors::INTERNAL_SERVER_ERROR && e.msg@ =~= "fail to generate jwt token"@,
        },
{
    let mut roles: Vec<String> = Vec::new();
    if user.admin {
        roles.push("admin".to_owned());
    }
    let claims = JwtClaims {
        iat: now,
        exp: now + 7 * DAY,
        user_id: user.id,
        username: user.username.clone(),
        roles,
    };
    proof {
        crate::codec::lemma_roles_deep_view(claims.roles);
        if user.admin {
            assert(claims.roles.deep_view() =~= seq!["admin"@]);
        } else {
            assert(claims.roles.deep_view() =~= Seq::<Seq<char>>::empty());
        }
        assert(claims@ =~= login_claims(user@, now));
    }
    match crate::codec::encode(&claims, secret) {
        Some(t) => Ok(t),
        None => Err(crate::errors::internal_server_error("fail to generate jwt token")),
    }
}

} // verus!
