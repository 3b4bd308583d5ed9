//! The account table: the storage collaborator behind the user flows, with
//! the uniqueness rules that the schema enforces stated as its invariant.

use vstd::prelude::*;
use vstd::utf8::encode_utf8;

use crate::crypto::{MAX_DIGEST_INPUT, pbkdf2_sha256_of};
use crate::digest::{digest_fits, digest_password, fits_half, salt_bytes};
use crate::errors::StoreError;
use crate::text::{lower_of, lowercase};

verus! {

/// A stored account row.
#[derive(Debug)]
pub struct User {
    pub id: i32,
    pub username: String,
    pub email: String,
    pub admin: bool,
    pub password_digest: Vec<u8>,
}

/// Mathematical content of an account row.
#[verifier::ext_equal]
pub ghost struct UserModel {
    pub id: i32,
    pub username: Seq<char>,
    pub email: Seq<char>,
    pub admin: bool,
    pub password_digest: Seq<u8>,
}

impl View for User {
    type V = UserModel;

    open spec fn view(&self) -> UserModel {
        UserModel {
            id: self.id,
            username: self.username@,
            email: self.email@,
            admin: self.admin,
            password_digest: self.password_digest@,
        }
    }
}

impl DeepView for User {
    type V = UserModel;

    open spec fn deep_view(&self) -> UserModel {
        self.view()
    }
}

impl User {
    /// Copy the row.
    pub fn duplicate(&self) -> (r: User)
        ensures
            r@ == self@,
    {
        User {
            id: self.id,
            username: self.username.clone(),
            email: self.email.clone(),
            admin: self.admin,
            password_digest: vstd::slice::slice_to_vec(self.password_digest.as_slice()),
        }
    }

    /// Whether the attempted password matches this row's stored credential.
    pub fn verify_password(&self, digest_salt: &str, attempted: &str) -> (r: bool)
        requires
            digest_fits(digest_salt@, self.username@, attempted@),
        ensures
            r == (self@.password_digest.len() == 32 && self@.password_digest == pbkdf2_sha256_of(
                salt_bytes(digest_salt@, self@.username),
                encode_utf8(attempted@),
            )),
    {
        crate::digest::verify_password(
            digest_salt,
            self.username.as_str(),
            &self.password_digest,
            attempted,
        )
    }
}

/// What a caller supplies to create an account.
pub struct RawUser {
    pub username: String,
    pub email: String,
    pub password: String,
}

/// What a caller supplies to change an account; absent fields keep their
/// stored value.
pub struct RawUpdatedUser {
    pub username: Option<String>,
    pub email: Option<String>,
    pub password: Option<String>,
}

/// The in-memory account table.
pub struct UserStore {
    pub users: Vec<User>,
    pub next_id: i32,
}

/// The first index holding the given account id.
pub open spec fn find_id(rows: Seq<UserModel>, id: i32) -> Option<int>
    decreases rows.len(),
{
    if rows.len() == 0 {
        None
    } else if rows[0].id == id {
        Some(0)
    } else {
        match find_id(rows.drop_first(), id) {
            None => None,
            Some(i) => Some(i + 1),
        }
    }
}

/// The first index holding the given username.
pub open spec fn find_name(rows: Seq<UserModel>, name: Seq<char>) -> Option<int>
    decreases rows.len(),
{
    if rows.len() == 0 {
        None
    } else if rows[0].username == name {
        Some(0)
    } else {
        match find_name(rows.drop_first(), name) {
            None => None,
            Some(i) => Some(i + 1),
        }
    }
}

/// Whether some row other than the one at `except` holds the username.
pub open spec fn username_taken_except(rows: Seq<UserModel>, name: Seq<char>, except: int) -> bool {
    exists|i: int| 0 <= i < rows.len() && i != except && rows[i].username == name
}

/// Whether some row holds the username.
pub open spec fn username_taken(rows: Seq<UserModel>, name: Seq<char>) -> bool {
    username_taken_except(rows, name, -1)
}

/// Whether some row other than the one at `except` holds the email.
pub open spec fn email_taken_except(rows: Seq<UserModel>, email: Seq<char>, except: int) -> bool {
    exists|i: int| 0 <= i < rows.len() && i != except && rows[i].email == email
}

/// Whether some row holds the email.
pub open spec fn email_taken(rows: Seq<UserModel>, email: Seq<char>) -> bool {
    email_taken_except(rows, email, -1)
}

/// The uniqueness-violation failure for the given constraint of the account
/// table.
pub open spec fn users_violation(e: &StoreError, constraint: Seq<char>) -> bool {
    match e {
        StoreError::UniqueViolation { table, constraint: c } => crate::errors::opt_view(table)
            == Some("users"@) && crate::errors::opt_view(c) == Some(constraint),
        _ => false,
    }
}

impl UserStore {
    /// The rows the table holds.
    pub open spec fn rows(&self) -> Seq<UserModel> {
        self.users.deep_view()
    }

    /// Table invariant: ids, usernames and emails are unique, ids stay below
    /// the allocator, and every stored username fits the digest salt limit.
    pub open spec fn wf(&self) -> bool {
        &&& forall|i: int, j: int|
            0 <= i < j < self.rows().len() ==> self.rows()[i].id != self.rows()[j].id
                && self.rows()[i].username != self.rows()[j].username && self.rows()[i].email
                != self.rows()[j].email
        &&& forall|i: int| 0 <= i < self.rows().len() ==> #[trigger] self.rows()[i].id < self.next_id
        &&& forall|i: int|
            0 <= i < self.rows().len() ==> #[trigger] fits_half(self.rows()[i].username)
    }

    /// An empty table whose first account gets id 1.
    pub fn new() -> (r: UserStore)
        ensures
            r.wf(),
            r.rows() == Seq::<UserModel>::empty(),
            r.next_id == 1,
    {
        let r = UserStore { users: Vec::new(), next_id: 1 };
        proof {
            assert(r.rows() =~= Seq::<UserModel>::empty());
        }
        r
    }
}

/// A found index is in range and holds the looked-up username.
pub proof fn lemma_find_name_props(rows: Seq<UserModel>, name: Seq<char>)
    ensures
        find_name(rows, name) matches Some(i) ==> 0 <= i < rows.len() && rows[i].username == name,
    decreases rows.len(),
{
    if rows.len() > 0 && rows[0].username != name {
        lemma_find_name_props(rows.drop_first(), name);
    }
}

/// Pointwise reading of the rows of a `Vec<User>`.
pub proof fn lemma_rows_view(v: Vec<User>)
    ensures
        v.deep_view().len() == v@.len(),
        forall|i: int| 0 <= i < v@.len() ==> #[trigger] v.deep_view()[i] == v@[i]@,
{
}

impl UserStore {
    /// Find the position of an account id.
    fn index_of_id(&self, id: i32) -> (r: Option<usize>)
        ensures
            match r {
                Some(ix) => find_id(self.rows(), id) == Some(ix as int) && ix < self.rows().len()
                    && self.rows()[ix as int].id == id,
                None => find_id(self.rows(), id) is None,
            },
    {
        proof {
            lemma_rows_view(self.users);
            assert(self.rows().subrange(0, self.rows().len() as int) =~= self.rows());
        }
        let mut i: usize = 0;
        while i < self.users.len()
            invariant
                i <= self.users@.len(),
                self.rows().len() == self.users@.len(),
                forall|k: int| 0 <= k < self.users@.len() ==> #[trigger] self.rows()[k]
                    == self.users@[k]@,
                forall|k: int| 0 <= k < i ==> #[trigger] self.rows()[k].id != id,
                find_id(self.rows(), id) == match find_id(
                    self.rows().subrange(i as int, self.rows().len() as int),
                    id,
                ) {
                    None => None::<int>,
                    Some(j) => Some(j + i),
                },
            decreases self.users@.len() - i,
        {
            let ghost cur = self.rows().subrange(i as int, self.rows().len() as int);
            if self.users[i].id == id {
                proof {
                    assert(cur[0].id == id);
                }
                return Some(i);
            }
            proof {
                assert(cur[0].id != id);
                assert(cur.drop_first() =~= self.rows().subrange(
                    i + 1 as int,
                    self.rows().len() as int,
                ));
            }
            i = i + 1;
        }
        proof {
            assert(self.rows().subrange(i as int, self.rows().len() as int).len() == 0);
        }
        None
    }

    /// Whether a username is taken, skipping the row at `except` when it is
    /// within range.
    fn username_in_use(&self, name: &String, except: Option<usize>) -> (r: bool)
        ensures
            r == username_taken_except(
                self.rows(),
                name@,
                match except {
                    Some(e) => e as int,
                    None => -1,
                },
            ),
    {
        proof {
            lemma_rows_view(self.users);
        }
        let ghost ex: int = match except {
            Some(e) => e as int,
            None => -1,
        };
        let mut i: usize = 0;
        while i < self.users.len()
            invariant
                i <= self.users@.len(),
                self.rows().len() == self.users@.len(),
                forall|k: int| 0 <= k < self.users@.len() ==> #[trigger] self.rows()[k]
                    == self.users@[k]@,
                ex == (match except {
                    Some(e) => e as int,
                    None => -1,
                }),
                forall|k: int| 0 <= k < i && k != ex ==> self.rows()[k].username != name@,
            decreases self.users@.len() - i,
        {
            let skip = match except {
                Some(e) => e == i,
                None => false,
            };
            if !skip && self.users[i].username.eq(name) {
                proof {
                    assert(self.rows()[i as int].username == name@);
                }
                return true;
            }
            i = i + 1;
        }
        proof {
            assert(!username_taken_except(self.rows(), name@, ex));
        }
        false
    }

    /// Whether an email is taken, skipping the row at `except` when given.
    fn email_in_use(&self, email: &String, except: Option<usize>) -> (r: bool)
        ensures
            r == email_taken_except(
                self.rows(),
                email@,
                match except {
                    Some(e) => e as int,
                    None => -1,
                },
            ),
    {
        proof {
            lemma_rows_view(self.users);
        }
        let ghost ex: int = match except {
            Some(e) => e as int,
            None => -1,
        };
        let mut i: usize = 0;
        while i < self.users.len()
            invariant
                i <= self.users@.len(),
                self.rows().len() == self.users@.len(),
                forall|k: int| 0 <= k < self.users@.len() ==> #[trigger] self.rows()[k]
                    == self.users@[k]@,
                ex == (match except {
                    Some(e) => e as int,
                    None => -1,
                }),
                forall|k: int| 0 <= k < i && k != ex ==> self.rows()[k].email != email@,
            decreases self.users@.len() - i,
        {
            let skip = match except {
                Some(e) => e == i,
                None => false,
            };
            if !skip && self.users[i].email.eq(email) {
                proof {
                    assert(self.rows()[i as int].email == email@);
                }
                return true;
            }
            i = i + 1;
        }
        proof {
            assert(!email_taken_except(self.rows(), email@, ex));
        }
        false
    }

    /// Create an account: the email is stored lowercased, the password as
    /// its salted digest, and the admin flag starts false. Fails exactly on
    /// a username or email already in the table, username checked first.
    pub fn create_user(&mut self, user: &RawUser, digest_salt: &str) -> (r: Result<
        User,
        StoreError,
    >)
        requires
            old(self).wf(),
            old(self).next_id < 0x7fff_ffff,
            digest_fits(digest_salt@, user.username@, user.password@),
        ensures
            final(self).wf(),
            final(self).next_id >= old(self).next_id,
            match r {
                Ok(u) => {
                    &&& !username_taken(old(self).rows(), user.username@)
                    &&& !email_taken(old(self).rows(), lower_of(user.email@))
                    &&& u@ == (UserModel {
                        id: old(self).next_id,
                        username: user.username@,
                        email: lower_of(user.email@),
                        admin: false,
                        password_digest: pbkdf2_sha256_of(
                            salt_bytes(digest_salt@, user.username@),
                            encode_utf8(user.password@),
                        ),
                    })
                    &&& final(self).rows() == old(self).rows().push(u@)
                    &&& final(self).next_id == old(self).next_id + 1
                },
                Err(e) => {
                    &&& final(self).rows() == old(self).rows()
                    &&& final(self).next_id == old(self).next_id
                    &&& if username_taken(old(self).rows(), user.username@) {
                        users_violation(&e, "users_username_key"@)
                    } else {
                        email_taken(old(self).rows(), lower_of(user.email@)) && users_violation(
                            &e,
                            "users_email_key"@,
                        )
                    }
                },
            },
    {
        proof {
            lemma_rows_view(self.users);
        }
        if self.username_in_use(&user.username, None) {
            return Err(
                StoreError::UniqueViolation {
                    table: Some("users".to_owned()),
                    constraint: Some("users_username_key".to_owned()),
                },
            );
        }
        let email = lowercase(user.email.as_str());
        if self.email_in_use(&email, None) {
            return Err(
                StoreError::UniqueViolation {
                    table: Some("users".to_owned()),
                    constraint: Some("users_email_key".to_owned()),
                },
            );
        }
        let digest = digest_password(digest_salt, user.username.as_str(), user.password.as_str());
        let row = User {
            id: self.next_id,
            username: user.username.clone(),
            email,
            admin: false,
            password_digest: digest,
        };
        let out = row.duplicate();
        let ghost old_rows = self.rows();
        self.users.push(row);
        self.next_id = self.next_id + 1;
        proof {
            lemma_rows_view(self.users);
            assert(self.rows() =~= old_rows.push(out@));
        }
        Ok(out)
    }

    /// Fetch an account by id; `NotFound` when no row holds it.
    pub fn get_user_by_id(&self, id: i32) -> (r: Result<User, StoreError>)
        ensures
            match r {
                Ok(u) => find_id(self.rows(), id) matches Some(ix) && u@ == self.rows()[ix],
                Err(e) => find_id(self.rows(), id) is None && e is NotFound,
            },
    {
        match self.index_of_id(id) {
            Some(ix) => Ok(self.users[ix].duplicate()),
            None => Err(StoreError::NotFound),
        }
    }

    /// Fetch an account by username; `NotFound` when no row holds it.
    pub fn get_user_by_name(&self, username: &str) -> (r: Result<User, StoreError>)
        ensures
            match r {
                Ok(u) => find_name(self.rows(), username@) matches Some(ix) && u@
                    == self.rows()[ix],
                Err(e) => find_name(self.rows(), username@) is None && e is NotFound,
            },
    {
        proof {
            lemma_rows_view(self.users);
            assert(self.rows().subrange(0, self.rows().len() as int) =~= self.rows());
        }
        let mut i: usize = 0;
        while i < self.users.len()
            invariant
                i <= self.users@.len(),
                self.rows().len() == self.users@.len(),
                forall|k: int| 0 <= k < self.users@.len() ==> #[trigger] self.rows()[k]
                    == self.users@[k]@,
                find_name(self.rows(), username@) == match find_name(
                    self.rows().subrange(i as int, self.rows().len() as int),
                    username@,
                ) {
                    None => None::<int>,
                    Some(j) => Some(j + i),
                },
            decreases self.users@.len() - i,
        {
            let ghost cur = self.rows().subrange(i as int, self.rows().len() as int);
            let target = username.to_owned();
            if self.users[i].username.eq(&target) {
                proof {
                    assert(cur[0].username == username@);
                }
                return Ok(self.users[i].duplicate());
            }
            proof {
                assert(cur[0].username != username@);
                assert(cur.drop_first() =~= self.rows().subrange(
                    i + 1 as int,
                    self.rows().len() as int,
                ));
            }
            i = i + 1;
        }
        proof {
            assert(self.rows().subrange(i as int, self.rows().len() as int).len() == 0);
        }
        Err(StoreError::NotFound)
    }

    /// The first twenty accounts, in table order.
    pub fn get_user_list(&self) -> (r: Vec<User>)
        ensures
            r.deep_view() == (if self.rows().len() <= 20 {
                self.rows()
            } else {
                self.rows().take(20)
            }),
    {
        proof {
            lemma_rows_view(self.users);
        }
        let mut out: Vec<User> = Vec::new();
        let mut i: usize = 0;
        let n = if self.users.len() <= 20 {
            self.users.len()
        } else {
            20
        };
        while i < n
            invariant
                i <= n,
                n <= self.users@.len(),
                n == (if self.users@.len() <= 20 {
                    self.users@.len() as int
                } else {
                    20int
                }),
                self.rows().len() == self.users@.len(),
                forall|k: int| 0 <= k < self.users@.len() ==> #[trigger] self.rows()[k]
                    == self.users@[k]@,
                out@.len() == i,
                out.deep_view() == self.rows().take(i as int),
            decreases n - i,
        {
            let ghost before = out.deep_view();
            out.push(self.users[i].duplicate());
            i = i + 1;
            proof {
                lemma_rows_view(out);
                assert(out.deep_view().len() == i);
                assert forall|k: int| 0 <= k < i implies out.deep_view()[k] == self.rows().take(
                    i as int,
                )[k] by {
                    if k < i - 1 {
                        assert(out.deep_view()[k] == before[k]);
                    }
                }
                assert(out.deep_view() =~= self.rows().take(i as int));
            }
        }
        proof {
            if self.rows().len() <= 20 {
                assert(self.rows().take(n as int) =~= self.rows());
            }
        }
        out
    }

    /// Change an account: absent fields keep their stored value, the email
    /// is lowercased, and a new password is digested under the (possibly
    /// updated) username. Fails on an absent id or on a username or email
    /// another row already holds.
    pub fn update_user(&mut self, id: i32, updated: &RawUpdatedUser, digest_salt: &str) -> (r:
        Result<User, StoreError>)
        requires
            old(self).wf(),
            fits_half(digest_salt@),
            updated.username matches Some(n) ==> fits_half(n@),
            updated.password matches Some(p) ==> encode_utf8(p@).len() <= MAX_DIGEST_INPUT,
        ensures
            final(self).wf(),
            final(self).next_id == old(self).next_id,
            match r {
                Ok(u) => {
                    &&& find_id(old(self).rows(), id) matches Some(ix) && {
                        let base = old(self).rows()[ix];
                        let newname = match updated.username {
                            Some(n) => n@,
                            None => base.username,
                        };
                        let newemail = match updated.email {
                            Some(e) => lower_of(e@),
                            None => base.email,
                        };
                        let newdigest = match updated.password {
                            Some(p) => pbkdf2_sha256_of(
                                salt_bytes(digest_salt@, newname),
                                encode_utf8(p@),
                            ),
                            None => base.password_digest,
                        };
                        &&& !username_taken_except(old(self).rows(), newname, ix)
                        &&& !email_taken_except(old(self).rows(), newemail, ix)
                        &&& u@ == (UserModel {
                            id: base.id,
                            username: newname,
                            email: newemail,
                            admin: base.admin,
                            password_digest: newdigest,
                        })
                        &&& final(self).rows() == old(self).rows().update(ix, u@)
                    }
                },
                Err(e) => {
                    &&& final(self).rows() == old(self).rows()
                    &&& match find_id(old(self).rows(), id) {
                        None => e is NotFound,
                        Some(ix) => {
                            let base = old(self).rows()[ix];
                            let newname = match updated.username {
                                Some(n) => n@,
                                None => base.username,
                            };
                            let newemail = match updated.email {
                                Some(e) => lower_of(e@),
                                None => base.email,
                            };
                            if username_taken_except(old(self).rows(), newname, ix) {
                                users_violation(&e, "users_username_key"@)
                            } else {
                                email_taken_except(old(self).rows(), newemail, ix)
                                    && users_violation(&e, "users_email_key"@)
                            }
                        },
                    }
                },
            },
    {
        proof {
            lemma_rows_view(self.users);
        }
        let ix = match self.index_of_id(id) {
            Some(ix) => ix,
            None => {
                return Err(StoreError::NotFound);
            },
        };
        let base = &self.users[ix];
        let newname: String = match &updated.username {
            Some(n) => n.clone(),
            None => base.username.clone(),
        };
        let newemail: String = match &updated.email {
            Some(e) => lowercase(e.as_str()),
            None => base.email.clone(),
        };
        if self.username_in_use(&newname, Some(ix)) {
            return Err(
                StoreError::UniqueViolation {
                    table: Some("users".to_owned()),
                    constraint: Some("users_username_key".to_owned()),
                },
            );
        }
        if self.email_in_use(&newemail, Some(ix)) {
            return Err(
                StoreError::UniqueViolation {
                    table: Some("users".to_owned()),
                    constraint: Some("users_email_key".to_owned()),
                },
            );
        }
        proof {
            assert(fits_half(self.rows()[ix as int].username));
        }
        let newdigest: Vec<u8> = match &updated.password {
            Some(p) => digest_password(digest_salt, newname.as_str(), p.as_str()),
            None => vstd::slice::slice_to_vec(self.users[ix].password_digest.as_slice()),
        };
        let row = User {
            id: self.users[ix].id,
            username: newname,
            email: newemail,
            admin: self.users[ix].admin,
            password_digest: newdigest,
        };
        let out = row.duplicate();
        let ghost old_rows = self.rows();
        self.users[ix] = row;
        proof {
            lemma_rows_view(self.users);
            assert(self.rows() =~= old_rows.update(ix as int, out@));
        }
        Ok(out)
    }

    /// Delete the account with the given id; the count of rows removed.
    pub fn delete_user(&mut self, id: i32) -> (r: usize)
        requires
            old(self).wf(),
        ensures
            final(self).wf(),
            final(self).next_id == old(self).next_id,
            match find_id(old(self).rows(), id) {
                None => r == 0 && final(self).rows() == old(self).rows(),
                Some(ix) => r == 1 && final(self).rows() == old(self).rows().remove(ix),
            },
    {
        proof {
            lemma_rows_view(self.users);
        }
        let ix = match self.index_of_id(id) {
            Some(ix) => ix,
            None => {
                return 0;
            },
        };
        let ghost old_rows = self.rows();
        self.users.remove(ix);
        proof {
            lemma_rows_view(self.users);
            assert(self.rows() =~= old_rows.remove(ix as int));
        }
        1
    }
}

} // verus!
