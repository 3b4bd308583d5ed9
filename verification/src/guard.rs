//! Principal resolution and permission evaluation.
//!
//! A raw `Authorization` header value is turned into a typed principal
//! ([`UserToken`]) whose capability tag says which checks it may satisfy.
//! Every failure is classified: absent, malformed and expired credentials,
//! and insufficient capability, each get a distinct boundary error.

use core::marker::PhantomData;

use vstd::prelude::*;

use crate::auth::{ClaimsModel, JwtClaims};
use crate::codec::{decode_bytes, spec_decode_bytes};
use crate::crypto::MAX_DIGEST_INPUT;
use crate::errors::{Error, FORBIDDEN, UNAUTHORIZED, forbidden, unauthorized};
use crate::text::bytes_of_chars;

verus! {

/// Capability tag of an ordinary, ownership-scoped principal.
#[derive(Debug)]
pub enum User {
    Tag,
}

/// Capability tag of an administrator principal.
#[derive(Debug)]
pub enum Admin {
    Tag,
}

/// Mathematical content of a principal.
#[verifier::ext_equal]
pub ghost struct TokenModel {
    pub user_id: i32,
    pub username: Seq<char>,
    pub roles: Seq<Seq<char>>,
}

/// A typed principal: the verified identity of the request's caller, tagged
/// with the capability that resolution established.
#[derive(Debug)]
pub struct UserToken<Perm> {
    pub user_id: i32,
    pub username: String,
    pub roles: Vec<String>,
    pub perm: PhantomData<Perm>,
}

impl<Perm> View for UserToken<Perm> {
    type V = TokenModel;

    open spec fn view(&self) -> TokenModel {
        TokenModel { user_id: self.user_id, username: self.username@, roles: self.roles.deep_view() }
    }
}

/// Whether a role list holds the given role.
pub open spec fn has_role_spec(roles: Seq<Seq<char>>, role: Seq<char>) -> bool {
    exists|i: int| 0 <= i < roles.len() && roles[i] == role
}

/// Whether a principal's role data carries the administrator role.
pub open spec fn is_admin_model(m: TokenModel) -> bool {
    has_role_spec(m.roles, "admin"@)
}

/// The principal that a claim set resolves to.
pub open spec fn token_model_of(c: ClaimsModel) -> TokenModel {
    TokenModel { user_id: c.user_id, username: c.username, roles: c.roles }
}

/// The ownership-or-admin access rule: a principal may act on the resource
/// owned by `required_id` when it is the owner or carries the administrator
/// role.
pub open spec fn permits(m: TokenModel, required_id: i32) -> bool {
    m.user_id == required_id || is_admin_model(m)
}

impl<Perm> UserToken<Perm> {
    /// Assemble a principal; resolution uses this once the claims check out.
    pub fn new(user_id: i32, username: String, roles: Vec<String>) -> (r: Self)
        ensures
            r@ == (TokenModel { user_id, username: username@, roles: roles.deep_view() }),
    {
        UserToken { user_id, username, roles, perm: PhantomData }
    }

    /// Whether this principal is the owner with the given identifier.
    pub fn match_user_id(&self, id: i32) -> (r: bool)
        ensures
            r == (self.user_id == id),
    {
        self.user_id == id
    }

    /// Whether this principal carries the given role.
    pub fn has_role(&self, role: &str) -> (r: bool)
        ensures
            r == has_role_spec(self@.roles, role@),
    {
        proof {
            crate::codec::lemma_roles_deep_view(self.roles);
        }
        let target = role.to_owned();
        let mut i: usize = 0;
        while i < self.roles.len()
            invariant
                i <= self.roles@.len(),
                target@ == role@,
                forall|k: int| 0 <= k < i ==> self@.roles[k] != role@,
                self@.roles.len() == self.roles@.len(),
                forall|k: int| 0 <= k < self.roles@.len() ==> #[trigger] self@.roles[k]
                    == self.roles@[k]@,
            decreases self.roles@.len() - i,
        {
            if self.roles[i].eq(&target) {
                proof {
                    assert(self@.roles[i as int] == role@);
                }
                return true;
            }
            i = i + 1;
        }
        proof {
            assert(!has_role_spec(self@.roles, role@));
        }
        false
    }
}

/// The seven bytes of the `Bearer ` scheme prefix.
pub open spec fn bearer_prefix() -> Seq<u8> {
    seq![66u8, 101u8, 97u8, 114u8, 101u8, 114u8, 32u8]
}

/// The header value with every leading `Bearer ` prefix removed.
pub open spec fn strip_bearer_bytes(b: Seq<u8>) -> Seq<u8>
    decreases b.len(),
{
    if b.len() >= 7 && b.subrange(0, 7) == bearer_prefix() {
        strip_bearer_bytes(b.subrange(7, b.len() as int))
    } else {
        b
    }
}

/// The claim set that a present header value resolves to, if any: the header
/// must be ASCII and, once the scheme prefix is stripped, decode under the
/// secret. Expiry is judged separately.
pub open spec fn spec_header_claims(secret: Seq<u8>, h: Seq<char>) -> Option<ClaimsModel> {
    if vstd::utf8::is_ascii_chars(h) {
        spec_decode_bytes(secret, strip_bearer_bytes(bytes_of_chars(h)))
    } else {
        None
    }
}

/// Outcome of resolving a header value at instant `now`: one of the three
/// classified credential failures, or the granted claim set.
pub ghost enum Resolution {
    MissingToken,
    InvalidToken,
    ExpiredToken,
    Granted(ClaimsModel),
}

/// The resolution that the header value is owed at instant `now`.
pub open spec fn spec_resolution(secret: Seq<u8>, header: Option<Seq<char>>, now: i64) -> Resolution {
    match header {
        None => Resolution::MissingToken,
        Some(h) => match spec_header_claims(secret, h) {
            None => Resolution::InvalidToken,
            Some(c) => if now >= c.exp {
                Resolution::ExpiredToken
            } else {
                Resolution::Granted(c)
            },
        },
    }
}

/// The view of an optional header value.
pub open spec fn header_view(header: Option<&str>) -> Option<Seq<char>> {
    match header {
        None => None,
        Some(h) => Some(h@),
    }
}

/// Strip every leading `Bearer ` prefix from the header bytes.
#[verifier::loop_isolation(false)]
fn strip_bearer(b: &Vec<u8>) -> (r: Vec<u8>)
    ensures
        r@ == strip_bearer_bytes(b@),
{
    let mut pos: usize = 0;
    proof {
        assert(b@.subrange(0, b@.len() as int) =~= b@);
    }
    loop
        invariant
            pos <= b@.len(),
            strip_bearer_bytes(b@) == strip_bearer_bytes(b@.subrange(pos as int, b@.len() as int)),
        decreases b@.len() - pos,
    {
        let ghost cur = b@.subrange(pos as int, b@.len() as int);
        if b.len() - pos >= 7 && b[pos] == 66 && b[pos + 1] == 101 && b[pos + 2] == 97 && b[pos + 3]
            == 114 && b[pos + 4] == 101 && b[pos + 5] == 114 && b[pos + 6] == 32 {
            proof {
                assert(cur.subrange(0, 7) =~= bearer_prefix());
                assert(cur.subrange(7, cur.len() as int) =~= b@.subrange(
                    pos + 7 as int,
                    b@.len() as int,
                ));
            }
            pos = pos + 7;
        } else {
            proof {
                if cur.len() >= 7 {
                    assert(cur.subrange(0, 7) != bearer_prefix()) by {
                        if cur.subrange(0, 7) == bearer_prefix() {
                            assert(cur.subrange(0, 7)[0] == 66 && cur.subrange(0, 7)[1] == 101
                                && cur.subrange(0, 7)[2] == 97 && cur.subrange(0, 7)[3] == 114
                                && cur.subrange(0, 7)[4] == 101 && cur.subrange(0, 7)[5] == 114
                                && cur.subrange(0, 7)[6] == 32);
                        }
                    }
                }
                assert(strip_bearer_bytes(cur) == cur);
            }
            break ;
        }
    }
    slice_to_vec_u8(b, pos)
}

/// Copy the tail of a byte vector from `from` on.
fn slice_to_vec_u8(b: &Vec<u8>, from: usize) -> (r: Vec<u8>)
    requires
        from <= b@.len(),
    ensures
        r@ == b@.subrange(from as int, b@.len() as int),
{
    let s = vstd::slice::slice_subrange(b.as_slice(), from, b.len());
    let r = vstd::slice::slice_to_vec(s);
    proof {
        assert(r@ =~= b@.subrange(from as int, b@.len() as int));
    }
    r
}

/// Resolve the claim set behind an `Authorization` header value, classifying
/// each failure; shared by both capability resolutions.
fn resolve_claims(header: Option<&str>, secret: &[u8], now: i64) -> (r: Result<JwtClaims, Error>)
    requires
        secret@.len() <= MAX_DIGEST_INPUT,
    ensures
        match spec_resolution(secret@, header_view(header), now) {
            Resolution::MissingToken => r matches Err(e) && e.code == UNAUTHORIZED && e.msg@
                =~= "token not found"@,
            Resolution::InvalidToken => r matches Err(e) && e.code == UNAUTHORIZED && e.msg@
                =~= "invalid token"@,
            Resolution::ExpiredToken => r matches Err(e) && e.code == UNAUTHORIZED && e.msg@
                =~= "expired token"@,
            Resolution::Granted(c) => r matches Ok(claims) && claims@ == c,
        },
{
    broadcast use vstd::string::is_ascii_spec_bytes;

    let h = match header {
        None => {
            return Err(unauthorized("token not found"));
        },
        Some(h) => h,
    };
    if !h.is_ascii() {
        return Err(unauthorized("invalid token"));
    }
    let hb = h.as_bytes_vec();
    proof {
        assert(hb@ =~= bytes_of_chars(h@));
    }
    let tb = strip_bearer(&hb);
    let claims = match decode_bytes(&tb, secret) {
        Ok(c) => c,
        Err(_) => {
            return Err(unauthorized("invalid token"));
        },
    };
    if claims.is_expired(now) {
        return Err(unauthorized("expired token"));
    }
    Ok(claims)
}

impl UserToken<User> {
    /// Resolve an ordinary principal from the raw `Authorization` header
    /// value, enforcing signature validity and expiry at instant `now`.
    pub fn from_header(header: Option<&str>, secret: &[u8], now: i64) -> (r: Result<
        UserToken<User>,
        Error,
    >)
        requires
            secret@.len() <= MAX_DIGEST_INPUT,
        ensures
            match spec_resolution(secret@, header_view(header), now) {
                Resolution::MissingToken => r matches Err(e) && e.code == UNAUTHORIZED && e.msg@
                    =~= "token not found"@,
                Resolution::InvalidToken => r matches Err(e) && e.code == UNAUTHORIZED && e.msg@
                    =~= "invalid token"@,
                Resolution::ExpiredToken => r matches Err(e) && e.code == UNAUTHORIZED && e.msg@
                    =~= "expired token"@,
                Resolution::Granted(c) => r matches Ok(t) && t@ == token_model_of(c),
            },
    {
        let claims = match resolve_claims(header, secret, now) {
            Ok(c) => c,
            Err(e) => {
                return Err(e);
            },
        };
        Ok(UserToken::new(claims.user_id, claims.username, claims.roles))
    }

    /// Ownership-or-role evaluation: the principal may act on the resource
    /// owned by `id` when it is the owner or carries the administrator role.
    pub fn has_perm(&self, id: i32) -> (r: Result<(), Error>)
        ensures
            match r {
                Ok(_) => permits(self@, id),
                Err(e) => !permits(self@, id) && e.code == FORBIDDEN && e.msg@
                    =~= "permission denied"@,
            },
    {
        if self.match_user_id(id) || self.has_role("admin") {
            Ok(())
        } else {
            Err(forbidden("permission denied"))
        }
    }
}

impl UserToken<Admin> {
    /// Resolve an administrator principal: like the ordinary resolution, and
    /// additionally refused with `permission denied` when the claims lack the
    /// administrator role.
    pub fn from_header(header: Option<&str>, secret: &[u8], now: i64) -> (r: Result<
        UserToken<Admin>,
        Error,
    >)
        requires
            secret@.len() <= MAX_DIGEST_INPUT,
        ensures
            match spec_resolution(secret@, header_view(header), now) {
                Resolution::MissingToken => r matches Err(e) && e.code == UNAUTHORIZED && e.msg@
                    =~= "token not found"@,
                Resolution::InvalidToken => r matches Err(e) && e.code == UNAUTHORIZED && e.msg@
                    =~= "invalid token"@,
                Resolution::ExpiredToken => r matches Err(e) && e.code == UNAUTHORIZED && e.msg@
                    =~= "expired token"@,
                Resolution::Granted(c) => if has_role_spec(c.roles, "admin"@) {
                    r matches Ok(t) && t@ == token_model_of(c)
                } else {
                    r matches Err(e) && e.code == FORBIDDEN && e.msg@ =~= "permission denied"@
                },
            },
    {
        let claims = match resolve_claims(header, secret, now) {
            Ok(c) => c,
            Err(e) => {
                return Err(e);
            },
        };
        let token = UserToken::<Admin>::new(claims.user_id, claims.username, claims.roles);
        if !token.has_role("admin") {
            return Err(forbidden("permission denied"));
        }
        Ok(token)
    }

    /// An administrator principal satisfies every admin-only check: the
    /// capability was established at resolution time.
    pub fn has_perm(&self) -> (r: Result<(), Error>)
        ensures
            r is Ok,
    {
        Ok(())
    }
}

/// The ownership-or-admin permission decision for a resolved-or-failed
/// ordinary principal: a resolution failure propagates as its own classified
/// error, an unqualified principal is refused with `permission denied`.
pub fn evaluate(required_id: i32, token: Result<UserToken<User>, Error>) -> (r: Result<(), Error>)
    ensures
        match token {
            Err(e) => r matches Err(e2) && e2.code == e.code && e2.msg@ == e.msg@,
            Ok(t) => match r {
                Ok(_) => permits(t@, required_id),
                Err(e) => !permits(t@, required_id) && e.code == FORBIDDEN && e.msg@
                    =~= "permission denied"@,
            },
        },
{
    match token {
        Err(e) => Err(e),
        Ok(t) => t.has_perm(required_id),
    }
}

} // verus!
