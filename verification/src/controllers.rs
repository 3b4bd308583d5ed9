//! The request handlers' decision logic: each protected operation receives
//! an already-resolved principal-or-error, evaluates the capability the
//! route requires, runs the storage operation, and classifies any failure.

use vstd::prelude::*;
use vstd::utf8::encode_utf8;

use crate::auth::{DAY, login_claims, wf_claims};
use crate::codec::spec_token_bytes;
use crate::crypto::{MAX_DIGEST_INPUT, pbkdf2_sha256_of};
use crate::digest::{digest_fits, fits_half, salt_bytes};
use crate::errors::{
    BAD_REQUEST, Error, FORBIDDEN, NOT_FOUND, badrequest, classify_store_error, duplicate_msg,
};
use crate::guard::{Admin, User as UserCap, UserToken, is_admin_model};
use crate::pastes::{NewPaste, Paste, PasteStore, find_paste, pastes_of_user};
use crate::text::{chars_of_bytes, lower_of};
use crate::users::{
    RawUpdatedUser, RawUser, User, UserStore, email_taken, email_taken_except, find_id, find_name,
    username_taken, username_taken_except,
};

verus! {

/// The login form.
pub struct LoginPayload {
    pub username: String,
    pub password: String,
}

/// The account-creation form.
pub struct UserPayload {
    pub username: String,
    pub email: String,
    pub password: String,
    pub confirm_password: String,
}

/// The account-change form; absent fields keep their stored value.
pub struct UpdatePayload {
    pub username: Option<String>,
    pub email: Option<String>,
    pub password: Option<String>,
    pub confirm_password: Option<String>,
}

/// Whether the stored credential at the named row matches the password.
pub open spec fn login_password_ok(
    u: crate::users::UserModel,
    digest_salt: Seq<char>,
    password: Seq<char>,
) -> bool {
    u.password_digest.len() == 32 && u.password_digest == pbkdf2_sha256_of(
        salt_bytes(digest_salt, u.username),
        encode_utf8(password),
    )
}

/// Log a user in: look the username up, check the password, and issue a
/// signed credential. An unknown username and a wrong password yield one
/// indistinguishable `400 wrong username or password`.
pub fn login(
    store: &UserStore,
    payload: &LoginPayload,
    digest_salt: &str,
    secret: &[u8],
    now: i64,
) -> (r: Result<String, Error>)
    requires
        digest_fits(digest_salt@, payload.username@, payload.password@),
        secret@.len() <= MAX_DIGEST_INPUT,
        now + 7 * DAY <= i64::MAX,
    ensures
        match find_name(store.rows(), payload.username@) {
            None => r matches Err(e) && e.code == BAD_REQUEST && e.msg@
                =~= "wrong username or password"@,
            Some(ix) => {
                let u = store.rows()[ix];
                if !login_password_ok(u, digest_salt@, payload.password@) {
                    r matches Err(e) && e.code == BAD_REQUEST && e.msg@
                        =~= "wrong username or password"@
                } else if !wf_claims(login_claims(u, now)) {
                    r matches Err(e) && e.code == crate::errors::INTERNAL_SERVER_ERROR && e.msg@
                        =~= "fail to generate jwt token"@
                } else {
                    r matches Ok(s) && s@ == chars_of_bytes(
                        spec_token_bytes(secret@, login_claims(u, now)),
                    )
                }
            },
        },
{
    proof {
        crate::users::lemma_find_name_props(store.rows(), payload.username@);
    }
    let user = match store.get_user_by_name(payload.username.as_str()) {
        Ok(u) => u,
        Err(_) => {
            return Err(badrequest("wrong username or password"));
        },
    };
    if !user.verify_password(digest_salt, payload.password.as_str()) {
        return Err(badrequest("wrong username or password"));
    }
    crate::auth::login(&user, secret, now)
}

/// The caller's own account: a resolved ordinary principal reads the row
/// its credential names; any resolution failure propagates.
pub fn me(token: Result<UserToken<UserCap>, Error>, store: &UserStore) -> (r: Result<User, Error>)
    ensures
        match token {
            Err(e) => r matches Err(e2) && e2.code == e.code && e2.msg@ == e.msg@,
            Ok(t) => match find_id(store.rows(), t.user_id) {
                Some(ix) => r matches Ok(u) && u@ == store.rows()[ix],
                None => r matches Err(e2) && e2.code == NOT_FOUND && e2.msg@ =~= "data not found"@,
            },
        },
{
    let t = match token {
        Ok(t) => t,
        Err(e) => {
            return Err(e);
        },
    };
    match store.get_user_by_id(t.user_id) {
        Ok(u) => Ok(u),
        Err(e) => Err(classify_store_error(&e)),
    }
}

/// All accounts (first twenty), for administrators only; any resolution
/// failure propagates.
pub fn get_users(token: Result<UserToken<Admin>, Error>, store: &UserStore) -> (r: Result<
    Vec<User>,
    Error,
>)
    ensures
        match token {
            Err(e) => r matches Err(e2) && e2.code == e.code && e2.msg@ == e.msg@,
            Ok(_) => r matches Ok(us) && us.deep_view() == (if store.rows().len() <= 20 {
                store.rows()
            } else {
                store.rows().take(20)
            }),
        },
{
    let t = match token {
        Ok(t) => t,
        Err(e) => {
            return Err(e);
        },
    };
    match t.has_perm() {
        Ok(_) => Ok(store.get_user_list()),
        Err(e) => Err(e),
    }
}

/// Create an account from the form: the two passwords must agree, and the
/// storage uniqueness failures are classified into `duplicate` messages.
pub fn create_user(store: &mut UserStore, payload: &UserPayload, digest_salt: &str) -> (r: Result<
    User,
    Error,
>)
    requires
        old(store).wf(),
        old(store).next_id < 0x7fff_ffff,
        digest_fits(digest_salt@, payload.username@, payload.password@),
    ensures
        final(store).wf(),
        payload.password@ != payload.confirm_password@ ==> (r matches Err(e) && e.code
            == BAD_REQUEST && e.msg@ =~= "password mismatch"@ && final(store).rows() == old(store).rows()),
        payload.password@ == payload.confirm_password@ ==> match r {
            Ok(u) => {
                &&& !username_taken(old(store).rows(), payload.username@)
                &&& !email_taken(old(store).rows(), lower_of(payload.email@))
                &&& u@ == (crate::users::UserModel {
                    id: old(store).next_id,
                    username: payload.username@,
                    email: lower_of(payload.email@),
                    admin: false,
                    password_digest: pbkdf2_sha256_of(
                        salt_bytes(digest_salt@, payload.username@),
                        encode_utf8(payload.password@),
                    ),
                })
                &&& final(store).rows() == old(store).rows().push(u@)
            },
            Err(e) => {
                &&& final(store).rows() == old(store).rows()
                &&& e.code == BAD_REQUEST
                &&& if username_taken(old(store).rows(), payload.username@) {
                    e.msg@ == duplicate_msg(Some("users"@), Some("users_username_key"@))
                } else {
                    email_taken(old(store).rows(), lower_of(payload.email@)) && e.msg@
                        == duplicate_msg(Some("users"@), Some("users_email_key"@))
                }
            },
        },
{
    if !payload.password.eq(&payload.confirm_password) {
        return Err(badrequest("password mismatch"));
    }
    let raw = RawUser {
        username: payload.username.clone(),
        email: payload.email.clone(),
        password: payload.password.clone(),
    };
    match store.create_user(&raw, digest_salt) {
        Ok(u) => Ok(u),
        Err(e) => Err(classify_store_error(&e)),
    }
}

/// One account by id: the caller must own it or be an administrator.
pub fn get_user_by_id(
    id: i32,
    token: Result<UserToken<UserCap>, Error>,
    store: &UserStore,
) -> (r: Result<User, Error>)
    ensures
        match token {
            Err(e) => r matches Err(e2) && e2.code == e.code && e2.msg@ == e.msg@,
            Ok(t) => if !(t.user_id == id || is_admin_model(t@)) {
                r matches Err(e2) && e2.code == FORBIDDEN && e2.msg@ =~= "permission denied"@
            } else {
                match find_id(store.rows(), id) {
                    Some(ix) => r matches Ok(u) && u@ == store.rows()[ix],
                    None => r matches Err(e2) && e2.code == NOT_FOUND && e2.msg@
                        =~= "data not found"@,
                }
            },
        },
{
    match crate::guard::evaluate(id, token) {
        Ok(_) => {},
        Err(e) => {
            return Err(e);
        },
    }
    match store.get_user_by_id(id) {
        Ok(u) => Ok(u),
        Err(e) => Err(classify_store_error(&e)),
    }
}

/// Change an account: the caller must own it or be an administrator, a new
/// password must be confirmed, and storage failures are classified.
pub fn update_user_by_id(
    id: i32,
    payload: UpdatePayload,
    token: Result<UserToken<UserCap>, Error>,
    store: &mut UserStore,
    digest_salt: &str,
) -> (r: Result<User, Error>)
    requires
        old(store).wf(),
        fits_half(digest_salt@),
        payload.username matches Some(n) ==> fits_half(n@),
        payload.password matches Some(p) ==> encode_utf8(p@).len() <= MAX_DIGEST_INPUT,
    ensures
        final(store).wf(),
        match token {
            Err(e) => r matches Err(e2) && e2.code == e.code && e2.msg@ == e.msg@ && final(store).rows() == old(store).rows(),
            Ok(t) => if !(t.user_id == id || is_admin_model(t@)) {
                r matches Err(e2) && e2.code == FORBIDDEN && e2.msg@ =~= "permission denied"@
                    && final(store).rows() == old(store).rows()
            } else if payload.password matches Some(p) && (match payload.confirm_password {
                None => true,
                Some(c) => c@ != p@,
            }) {
                r matches Err(e2) && e2.code == BAD_REQUEST && e2.msg@ =~= "password mismatch"@
                    && final(store).rows() == old(store).rows()
            } else {
                match find_id(old(store).rows(), id) {
                    None => r matches Err(e2) && e2.code == NOT_FOUND && e2.msg@
                        =~= "data not found"@ && final(store).rows() == old(store).rows(),
                    Some(ix) => {
                        let base = old(store).rows()[ix];
                        let newname = match payload.username {
                            Some(n) => n@,
                            None => base.username,
                        };
                        let newemail = match payload.email {
                            Some(e) => lower_of(e@),
                            None => base.email,
                        };
                        if username_taken_except(old(store).rows(), newname, ix) {
                            r matches Err(e2) && e2.code == BAD_REQUEST && e2.msg@
                                == duplicate_msg(Some("users"@), Some("users_username_key"@))
                                && final(store).rows() == old(store).rows()
                        } else if email_taken_except(old(store).rows(), newemail, ix) {
                            r matches Err(e2) && e2.code == BAD_REQUEST && e2.msg@
                                == duplicate_msg(Some("users"@), Some("users_email_key"@)) && final(store).rows() == old(store).rows()
                        } else {
                            r matches Ok(u) && u@ == (crate::users::UserModel {
                                id: base.id,
                                username: newname,
                                email: newemail,
                                admin: base.admin,
                                password_digest: match payload.password {
                                    Some(p) => pbkdf2_sha256_of(
                                        salt_bytes(digest_salt@, newname),
                                        encode_utf8(p@),
                                    ),
                                    None => base.password_digest,
                                },
                            }) && final(store).rows() == old(store).rows().update(ix, u@)
                        }
                    },
                }
            },
        },
{
    match crate::guard::evaluate(id, token) {
        Ok(_) => {},
        Err(e) => {
            return Err(e);
        },
    }
    let password_mismatch = match &payload.password {
        Some(p) => match &payload.confirm_password {
            None => true,
            Some(c) => !c.eq(p),
        },
        None => false,
    };
    if password_mismatch {
        return Err(badrequest("password mismatch"));
    }
    let raw = RawUpdatedUser {
        username: payload.username,
        email: payload.email,
        password: payload.password,
    };
    match store.update_user(id, &raw, digest_salt) {
        Ok(u) => Ok(u),
        Err(e) => Err(classify_store_error(&e)),
    }
}

/// Delete an account: the caller must own it or be an administrator; the
/// count of rows removed is returned.
pub fn delete_user_by_id(
    id: i32,
    token: Result<UserToken<UserCap>, Error>,
    store: &mut UserStore,
) -> (r: Result<usize, Error>)
    requires
        old(store).wf(),
    ensures
        final(store).wf(),
        match token {
            Err(e) => r matches Err(e2) && e2.code == e.code && e2.msg@ == e.msg@ && final(store).rows() == old(store).rows(),
            Ok(t) => if !(t.user_id == id || is_admin_model(t@)) {
                r matches Err(e2) && e2.code == FORBIDDEN && e2.msg@ =~= "permission denied"@
                    && final(store).rows() == old(store).rows()
            } else {
                match find_id(old(store).rows(), id) {
                    None => r matches Ok(n) && n == 0 && final(store).rows() == old(store).rows(),
                    Some(ix) => r matches Ok(n) && n == 1 && final(store).rows() == old(store).rows().remove(ix),
                }
            },
        },
{
    match crate::guard::evaluate(id, token) {
        Ok(_) => {},
        Err(e) => {
            return Err(e);
        },
    }
    Ok(store.delete_user(id))
}

/// All pastes (first twenty), for administrators only; any resolution
/// failure propagates.
pub fn get_pastes(token: Result<UserToken<Admin>, Error>, store: &PasteStore) -> (r: Result<
    Vec<Paste>,
    Error,
>)
    ensures
        match token {
            Err(e) => r matches Err(e2) && e2.code == e.code && e2.msg@ == e.msg@,
            Ok(_) => r matches Ok(ps) && ps.deep_view() == (if store.rows().len() <= 20 {
                store.rows()
            } else {
                store.rows().take(20)
            }),
        },
{
    let t = match token {
        Ok(t) => t,
        Err(e) => {
            return Err(e);
        },
    };
    match t.has_perm() {
        Ok(_) => Ok(store.get_pastes()),
        Err(e) => Err(e),
    }
}

/// Create a paste: the caller must be resolved, and the form's owner must
/// be the caller's own identity.
pub fn create_paste(
    payload: &NewPaste,
    token: Result<UserToken<UserCap>, Error>,
    store: &mut PasteStore,
) -> (r: Result<Paste, Error>)
    requires
        old(store).wf(),
        old(store).next_id < 0x7fff_ffff,
    ensures
        final(store).wf(),
        match token {
            Err(e) => r matches Err(e2) && e2.code == e.code && e2.msg@ == e.msg@ && final(store).rows() == old(store).rows(),
            Ok(t) => if t.user_id != payload.user_id {
                r matches Err(e2) && e2.code == BAD_REQUEST && e2.msg@
                    =~= "user_id doesn't match jwt token"@ && final(store).rows() == old(store).rows()
            } else {
                r matches Ok(p) && p@ == (crate::pastes::PasteModel {
                    id: old(store).next_id,
                    user_id: payload.user_id,
                    data: payload.data@,
                }) && final(store).rows() == old(store).rows().push(p@)
            },
        },
{
    let t = match token {
        Ok(t) => t,
        Err(e) => {
            return Err(e);
        },
    };
    if t.user_id != payload.user_id {
        return Err(badrequest("user_id doesn't match jwt token"));
    }
    match store.create_paste(payload) {
        Ok(p) => Ok(p),
        Err(e) => Err(classify_store_error(&e)),
    }
}

/// One paste by id; public, no credential involved.
pub fn get_paste_by_id(id: i32, store: &PasteStore) -> (r: Result<Paste, Error>)
    ensures
        match find_paste(store.rows(), id) {
            Some(ix) => r matches Ok(p) && p@ == store.rows()[ix],
            None => r matches Err(e) && e.code == NOT_FOUND && e.msg@ =~= "data not found"@,
        },
{
    match store.get_paste_by_id(id) {
        Ok(p) => Ok(p),
        Err(e) => Err(classify_store_error(&e)),
    }
}

/// The pastes owned by a user (first twenty): the caller must own them or
/// be an administrator.
pub fn get_pastes_by_user_id(
    user_id: i32,
    token: Result<UserToken<UserCap>, Error>,
    store: &PasteStore,
) -> (r: Result<Vec<Paste>, Error>)
    ensures
        match token {
            Err(e) => r matches Err(e2) && e2.code == e.code && e2.msg@ == e.msg@,
            Ok(t) => if !(t.user_id == user_id || is_admin_model(t@)) {
                r matches Err(e2) && e2.code == FORBIDDEN && e2.msg@ =~= "permission denied"@
            } else {
                r matches Ok(ps) && ps.deep_view() == (if pastes_of_user(
                    store.rows(),
                    user_id,
                ).len() <= 20 {
                    pastes_of_user(store.rows(), user_id)
                } else {
                    pastes_of_user(store.rows(), user_id).take(20)
                })
            },
        },
{
    match crate::guard::evaluate(user_id, token) {
        Ok(_) => {},
        Err(e) => {
            return Err(e);
        },
    }
    Ok(store.get_pastes_by_user_id(user_id))
}

/// Change a paste's data: the caller must own the route's user or be an
/// administrator, and the form must name the same owner and paste as the
/// route.
pub fn update_paste_by_id(
    id: i32,
    user_id: i32,
    payload: Paste,
    token: Result<UserToken<UserCap>, Error>,
    store: &mut PasteStore,
) -> (r: Result<Paste, Error>)
    requires
        old(store).wf(),
    ensures
        final(store).wf(),
        match token {
            Err(e) => r matches Err(e2) && e2.code == e.code && e2.msg@ == e.msg@ && final(store).rows() == old(store).rows(),
            Ok(t) => if !(t.user_id == user_id || is_admin_model(t@)) {
                r matches Err(e2) && e2.code == FORBIDDEN && e2.msg@ =~= "permission denied"@
                    && final(store).rows() == old(store).rows()
            } else if payload.user_id != user_id || payload.id != id {
                r matches Err(e2) && e2.code == BAD_REQUEST && e2.msg@
                    =~= "user_id or paste id doesn't match"@ && final(store).rows() == old(store).rows()
            } else {
                match find_paste(old(store).rows(), payload.id) {
                    None => r matches Err(e2) && e2.code == NOT_FOUND && e2.msg@
                        =~= "data not found"@ && final(store).rows() == old(store).rows(),
                    Some(ix) => r matches Ok(p) && p@ == (crate::pastes::PasteModel {
                        id: old(store).rows()[ix].id,
                        user_id: old(store).rows()[ix].user_id,
                        data: payload.data@,
                    }) && final(store).rows() == old(store).rows().update(ix, p@),
                }
            },
        },
{
    match crate::guard::evaluate(user_id, token) {
        Ok(_) => {},
        Err(e) => {
            return Err(e);
        },
    }
    if payload.user_id != user_id || payload.id != id {
        return Err(badrequest("user_id or paste id doesn't match"));
    }
    match store.update_paste(payload) {
        Ok(p) => Ok(p),
        Err(e) => Err(classify_store_error(&e)),
    }
}

/// Delete a paste: the caller must own the route's user or be an
/// administrator; the count of rows removed is returned.
pub fn delete_paste_by_id(
    id: i32,
    user_id: i32,
    token: Result<UserToken<UserCap>, Error>,
    store: &mut PasteStore,
) -> (r: Result<usize, Error>)
    requires
        old(store).wf(),
    ensures
        final(store).wf(),
        match token {
            Err(e) => r matches Err(e2) && e2.code == e.code && e2.msg@ == e.msg@ && final(store).rows() == old(store).rows(),
            Ok(t) => if !(t.user_id == user_id || is_admin_model(t@)) {
                r matches Err(e2) && e2.code == FORBIDDEN && e2.msg@ =~= "permission denied"@
                    && final(store).rows() == old(store).rows()
            } else {
                match find_paste(old(store).rows(), id) {
                    None => r matches Ok(n) && n == 0 && final(store).rows() == old(store).rows(),
                    Some(ix) => r matches Ok(n) && n == 1 && final(store).rows() == old(store).rows().remove(ix),
                }
            },
        },
{
    match crate::guard::evaluate(user_id, token) {
        Ok(_) => {},
        Err(e) => {
            return Err(e);
        },
    }
    Ok(store.delete_paste(id))
}

} // verus!
