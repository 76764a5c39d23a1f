//! User directory and credential store: account rows with salted password
//! digests, plus pending password-reset requests.

use crate::clock::now_secs;
use vstd::prelude::*;
use vstd::string::StringSliceAdditionalSpecFns;

verus! {

/// Rounds of key stretching applied to every stored password.
pub const PBKDF2_ROUNDS: u32 = 10000;

/// Seconds a password-reset request stays valid.
pub const RESET_VALIDITY_SECS: u64 = 3600;

/// The 32-byte key that PBKDF2-HMAC-SHA1 derives from a password, a salt and
/// a round count. Named, not stated: the algorithm is the outside crate's.
pub uninterp spec fn derived_key(password: Seq<u8>, salt: Seq<u8>, rounds: u32) -> Seq<u8>;

/// Relies on pbkdf2::pbkdf2_hmac with sha1::Sha1: it fills the output buffer
/// with a key that depends on the password, the salt and the round count
/// alone. This wrapper always asks for 32 bytes.
#[verifier::external_body]
fn stretch_password(password: &[u8], salt: &[u8; 16], rounds: u32) -> (r: [u8; 32])
    ensures
        r@ == derived_key(password@, salt@, rounds),
{
    let mut out = [0u8; 32];
    pbkdf2::pbkdf2_hmac::<sha1::Sha1>(password, salt, rounds, &mut out);
    out
}

/// Relies on rand::RngCore::fill_bytes through rand::thread_rng: the buffer
/// is filled from the thread-local generator; nothing is promised of the
/// bytes.
#[verifier::external_body]
fn random_salt() -> (r: [u8; 16]) {
    let mut salt = [0u8; 16];
    rand::RngCore::fill_bytes(&mut rand::thread_rng(), &mut salt);
    salt
}

/// Relies on uuid::Uuid::new_v4: a fresh random identifier, rendered in its
/// canonical text form; nothing is promised of its value.
#[verifier::external_body]
fn fresh_uuid() -> (r: String) {
    uuid::Uuid::new_v4().to_string()
}

/// Compare a borrowed string slice with an owned string by contents.
fn str_eq(a: &str, b: &String) -> (r: bool)
    ensures
        r == (a@ == b@),
{
    let owned = a.to_owned();
    owned == *b
}

/// Compare two 32-byte digests.
fn digests_eq(a: &[u8; 32], b: &[u8; 32]) -> (r: bool)
    ensures
        r == (a@ == b@),
{
    let mut i: usize = 0;
    while i < 32
        invariant
            0 <= i <= 32,
            forall|k: int| 0 <= k < i ==> a@[k] == b@[k],
        decreases 32 - i,
    {
        if a[i] != b[i] {
            return false;
        }
        i = i + 1;
    }
    proof {
        assert(a@ =~= b@);
    }
    true
}

/// A stored account row.
#[derive(Debug)]
pub struct DbUser {
    pub id: i64,
    pub name: String,
    pub encoded_password: [u8; 32],
    pub salt: [u8; 16],
    pub picture: Option<String>,
    pub date_of_birth: Option<i64>,
}

/// An account row as shown to other users: no credential material.
#[derive(Debug, PartialEq, Eq)]
pub struct CleanUser {
    pub id: i64,
    pub name: String,
    pub picture: Option<String>,
    pub date_of_birth: Option<i64>,
}

impl From<DbUser> for CleanUser {
    fn from(value: DbUser) -> (r: CleanUser) {
        CleanUser {
            id: value.id,
            name: value.name,
            picture: value.picture,
            date_of_birth: value.date_of_birth,
        }
    }
}

impl vstd::std_specs::convert::FromSpecImpl<DbUser> for CleanUser {
    open spec fn obeys_from_spec() -> bool {
        true
    }

    open spec fn from_spec(value: DbUser) -> CleanUser {
        CleanUser {
            id: value.id,
            name: value.name,
            picture: value.picture,
            date_of_birth: value.date_of_birth,
        }
    }
}

impl DbUser {
    /// Field-by-field comparison of the public part of an account row.
    pub fn test_eq(
        &self,
        id: i64,
        name: &str,
        picture: Option<String>,
        date_of_birth: Option<i64>,
    ) -> (r: bool)
        ensures
            r == (self.id == id && self.name@ == name@ && self.picture.deep_view()
                == picture.deep_view() && self.date_of_birth == date_of_birth),
    {
        self.id == id && str_eq(name, &self.name) && opt_str_eq(&self.picture, &picture)
            && self.date_of_birth == date_of_birth
    }
}

/// Copy an optional string by contents.
fn clone_opt_string(o: &Option<String>) -> (r: Option<String>)
    ensures
        r.deep_view() == o.deep_view(),
        r is Some <==> o is Some,
{
    match o {
        None => None,
        Some(s) => Some(s.clone()),
    }
}

/// Compare two optional strings by contents.
fn opt_str_eq(a: &Option<String>, b: &Option<String>) -> (r: bool)
    ensures
        r == (a.deep_view() == b.deep_view()),
{
    match (a, b) {
        (None, None) => true,
        (Some(x), Some(y)) => *x == *y,
        _ => false,
    }
}

/// A pending password-reset request.
pub struct ResetRequest {
    pub user_id: i64,
    pub uuid: String,
    pub expiry: u64,
}

/// The reset requests that remain once those of the given user are dropped.
pub open spec fn resets_without_user(rows: Seq<ResetRequest>, user_id: i64) -> Seq<ResetRequest>
    decreases rows.len(),
{
    if rows.len() == 0 {
        Seq::empty()
    } else if rows.last().user_id == user_id {
        resets_without_user(rows.drop_last(), user_id)
    } else {
        resets_without_user(rows.drop_last(), user_id).push(rows.last())
    }
}

/// The reset requests that remain once those carrying the given token are
/// dropped.
pub open spec fn resets_without_uuid(rows: Seq<ResetRequest>, uuid: Seq<char>) -> Seq<ResetRequest>
    decreases rows.len(),
{
    if rows.len() == 0 {
        Seq::empty()
    } else if rows.last().uuid@ == uuid {
        resets_without_uuid(rows.drop_last(), uuid)
    } else {
        resets_without_uuid(rows.drop_last(), uuid).push(rows.last())
    }
}

/// Some reset request pairs the given user with the given token.
pub open spec fn has_reset(rows: Seq<ResetRequest>, user_id: i64, uuid: Seq<char>) -> bool {
    exists|i: int| 0 <= i < rows.len() && rows[i].user_id == user_id && rows[i].uuid@ == uuid
}

#[derive(Debug)]
pub enum UsersManagerError {
    UserAlreadyExist(String),
    PasswordMismatch,
    UnknownUser(String),
    /// The store cannot take another row.
    Storage,
}

/// Some account carries the given name.
pub open spec fn name_taken(users: Seq<DbUser>, name: Seq<char>) -> bool {
    exists|i: int| 0 <= i < users.len() && users[i].name@ == name
}

/// The index of the account carrying the given name.
pub open spec fn user_index(users: Seq<DbUser>, name: Seq<char>) -> int {
    choose|i: int| 0 <= i < users.len() && users[i].name@ == name
}

/// The id the directory resolves a name to, if any.
pub open spec fn id_of_name(users: Seq<DbUser>, name: Seq<char>) -> Option<i64> {
    if name_taken(users, name) {
        Some(users[user_index(users, name)].id)
    } else {
        None
    }
}

/// Some account carries the given id.
pub open spec fn id_present(users: Seq<DbUser>, id: i64) -> bool {
    exists|i: int| 0 <= i < users.len() && users[i].id == id
}

/// The index of the account carrying the given id.
pub open spec fn index_of_id(users: Seq<DbUser>, id: i64) -> int {
    choose|i: int| 0 <= i < users.len() && users[i].id == id
}

/// Some account other than the one with the given id carries the name.
pub open spec fn name_taken_by_other(users: Seq<DbUser>, name: Seq<char>, id: i64) -> bool {
    exists|i: int| 0 <= i < users.len() && users[i].name@ == name && users[i].id != id
}

/// The two rows hold the same account, compared by contents.
pub open spec fn user_matches(a: DbUser, b: DbUser) -> bool {
    &&& a.id == b.id
    &&& a.name@ == b.name@
    &&& a.encoded_password@ == b.encoded_password@
    &&& a.salt@ == b.salt@
    &&& a.picture.deep_view() == b.picture.deep_view()
    &&& a.date_of_birth == b.date_of_birth
}

pub struct UsersManager {
    pub users: Vec<DbUser>,
    pub reset_requests: Vec<ResetRequest>,
    pub next_user_id: i64,
}

impl UsersManager {
    /// Ids start at 1 and are unique, names are unique, and every id is
    /// below the next one to be handed out.
    pub open spec fn wf(self) -> bool {
        &&& 1 <= self.next_user_id
        &&& forall|i: int, j: int|
            0 <= i < j < self.users@.len() ==> self.users@[i].id != self.users@[j].id
                && self.users@[i].name@ != self.users@[j].name@
        &&& forall|i: int|
            0 <= i < self.users@.len() ==> 1 <= #[trigger] self.users@[i].id
                < self.next_user_id
    }

    pub fn new() -> (r: UsersManager)
        ensures
            r.wf(),
            r.users@.len() == 0,
            r.reset_requests@.len() == 0,
    {
        UsersManager { users: Vec::new(), reset_requests: Vec::new(), next_user_id: 1 }
    }

    /// Find the index of the account with the given name.
    pub(crate) fn find_by_name(&self, name: &str) -> (r: Option<usize>)
        requires
            self.wf(),
        ensures
            match r {
                Some(i) => i < self.users@.len() && self.users@[i as int].name@ == name@,
                None => !name_taken(self.users@, name@),
            },
    {
        let mut i: usize = 0;
        while i < self.users.len()
            invariant
                0 <= i <= self.users@.len(),
                forall|k: int| 0 <= k < i ==> self.users@[k].name@ != name@,
            decreases self.users@.len() - i,
        {
            if str_eq(name, &self.users[i].name) {
                return Some(i);
            }
            i = i + 1;
        }
        None
    }

    /// Register an account under a free name; the stored digest is the
    /// stretched password under a fresh salt.
    pub fn add_user(&mut self, name: &str, password: &str) -> (r: Result<
        i64,
        UsersManagerError,
    >)
        requires
            old(self).wf(),
        ensures
            final(self).wf(),
            final(self).reset_requests@ == old(self).reset_requests@,
            name_taken(old(self).users@, name@) ==> *final(self) == *old(self) && (r matches Err(
                UsersManagerError::UserAlreadyExist(n),
            ) && n@ == name@),
            !name_taken(old(self).users@, name@) && old(self).next_user_id == i64::MAX ==> {
                *final(self) == *old(self) && r matches Err(UsersManagerError::Storage)
            },
            !name_taken(old(self).users@, name@) && old(self).next_user_id < i64::MAX ==> {
                &&& r matches Ok(id) && id == old(self).next_user_id
                &&& final(self).next_user_id == old(self).next_user_id + 1
                &&& exists|u: DbUser|
                    {
                        &&& final(self).users@ == old(self).users@.push(u)
                        &&& u.id == old(self).next_user_id
                        &&& u.name@ == name@
                        &&& u.picture is None
                        &&& u.date_of_birth is None
                        &&& u.encoded_password@ == derived_key(
                            password.spec_bytes(),
                            u.salt@,
                            PBKDF2_ROUNDS,
                        )
                    }
            },
    {
        if self.find_by_name(name).is_some() {
            return Err(UsersManagerError::UserAlreadyExist(name.to_owned()));
        }
        if self.next_user_id == i64::MAX {
            return Err(UsersManagerError::Storage);
        }
        let salt = random_salt();
        let encoded = stretch_password(password.as_bytes(), &salt, PBKDF2_ROUNDS);
        let id = self.next_user_id;
        let user = DbUser {
            id,
            name: name.to_owned(),
            encoded_password: encoded,
            salt,
            picture: None,
            date_of_birth: None,
        };
        self.users.push(user);
        self.next_user_id = id + 1;
        Ok(id)
    }

    /// Find the index of the account with the given id.
    pub(crate) fn find_by_id(&self, user_id: i64) -> (r: Option<usize>)
        ensures
            match r {
                Some(i) => i < self.users@.len() && self.users@[i as int].id == user_id,
                None => !id_present(self.users@, user_id),
            },
    {
        let mut i: usize = 0;
        while i < self.users.len()
            invariant
                0 <= i <= self.users@.len(),
                forall|k: int| 0 <= k < i ==> self.users@[k].id != user_id,
            decreases self.users@.len() - i,
        {
            if self.users[i].id == user_id {
                return Some(i);
            }
            i = i + 1;
        }
        None
    }

    /// Resolve a name to the id it is registered under, if any.
    pub fn lookup_id(&self, name: &str) -> (r: Option<i64>)
        requires
            self.wf(),
        ensures
            r == id_of_name(self.users@, name@),
    {
        match self.find_by_name(name) {
            Some(i) => {
                proof {
                    let j = user_index(self.users@, name@);
                    assert(self.users@[j].name@ == name@);
                    assert(j == i);
                }
                Some(self.users[i].id)
            },
            None => None,
        }
    }

    /// Look an account up by name; a copy of the row comes back.
    pub fn get_user(&self, name: &str) -> (r: Result<DbUser, UsersManagerError>)
        requires
            self.wf(),
        ensures
            name_taken(self.users@, name@) ==> (r matches Ok(u) && user_matches(
                u,
                self.users@[user_index(self.users@, name@)],
            )),
            !name_taken(self.users@, name@) ==> (r matches Err(UsersManagerError::UnknownUser(
                n,
            )) && n@ == name@),
    {
        match self.find_by_name(name) {
            Some(i) => {
                let row = &self.users[i];
                let u = DbUser {
                    id: row.id,
                    name: row.name.clone(),
                    encoded_password: row.encoded_password,
                    salt: row.salt,
                    picture: clone_opt_string(&row.picture),
                    date_of_birth: row.date_of_birth,
                };
                proof {
                    let j = user_index(self.users@, name@);
                    assert(self.users@[j].name@ == name@);
                    assert(j == i);
                }
                Ok(u)
            },
            None => Err(UsersManagerError::UnknownUser(name.to_owned())),
        }
    }

    /// Update an account's name and profile; the name must stay unique.
    pub fn edit_user(
        &mut self,
        user_id: i64,
        name: &str,
        picture: &Option<String>,
        date_of_birth: &Option<i64>,
    ) -> (r: Result<(), UsersManagerError>)
        requires
            old(self).wf(),
        ensures
            final(self).wf(),
            final(self).reset_requests@ == old(self).reset_requests@,
            final(self).next_user_id == old(self).next_user_id,
            !id_present(old(self).users@, user_id) ==> *final(self) == *old(self) && (r matches Err(
                UsersManagerError::UserAlreadyExist(n),
            ) && n@ == name@),
            id_present(old(self).users@, user_id) && name_taken_by_other(
                old(self).users@,
                name@,
                user_id,
            ) ==> *final(self) == *old(self) && (r matches Err(
                UsersManagerError::UserAlreadyExist(n),
            ) && n@ == name@),
            id_present(old(self).users@, user_id) && !name_taken_by_other(
                old(self).users@,
                name@,
                user_id,
            ) ==> {
                &&& r matches Ok(u)
                &&& exists|nu: DbUser|
                    {
                        &&& final(self).users@ == old(self).users@.update(
                            index_of_id(old(self).users@, user_id),
                            nu,
                        )
                        &&& nu.id == user_id
                        &&& nu.name@ == name@
                        &&& nu.picture.deep_view() == picture.deep_view()
                        &&& nu.date_of_birth == *date_of_birth
                        &&& nu.encoded_password@ == old(self).users@[index_of_id(
                            old(self).users@,
                            user_id,
                        )].encoded_password@
                        &&& nu.salt@ == old(self).users@[index_of_id(
                            old(self).users@,
                            user_id,
                        )].salt@
                    }
            },
    {
        let idx = match self.find_by_id(user_id) {
            Some(i) => i,
            None => {
                return Err(UsersManagerError::UserAlreadyExist(name.to_owned()));
            },
        };
        let mut k: usize = 0;
        while k < self.users.len()
            invariant
                *self == *old(self),
                old(self).wf(),
                idx < self.users@.len(),
                self.users@[idx as int].id == user_id,
                0 <= k <= self.users@.len(),
                forall|j: int|
                    0 <= j < k ==> !(self.users@[j].name@ == name@ && self.users@[j].id
                        != user_id),
            decreases self.users@.len() - k,
        {
            if self.users[k].id != user_id && str_eq(name, &self.users[k].name) {
                return Err(UsersManagerError::UserAlreadyExist(name.to_owned()));
            }
            k = k + 1;
        }
        let row = &self.users[idx];
        let updated = DbUser {
            id: row.id,
            name: name.to_owned(),
            encoded_password: row.encoded_password,
            salt: row.salt,
            picture: clone_opt_string(picture),
            date_of_birth: *date_of_birth,
        };
        proof {
            let j = index_of_id(self.users@, user_id);
            assert(self.users@[j].id == user_id);
            assert(j == idx);
        }
        self.users.set(idx, updated);
        Ok(())
    }

    /// Check a password against the stored digest; the public part of the
    /// account comes back on a match.
    pub fn check_password(&self, name: &str, password: &str) -> (r: Result<
        CleanUser,
        UsersManagerError,
    >)
        requires
            self.wf(),
        ensures
            !name_taken(self.users@, name@) ==> (r matches Err(UsersManagerError::UnknownUser(
                n,
            )) && n@ == name@),
            name_taken(self.users@, name@) ==> {
                let u = self.users@[user_index(self.users@, name@)];
                if derived_key(password.spec_bytes(), u.salt@, PBKDF2_ROUNDS)
                    == u.encoded_password@ {
                    r matches Ok(c) && c.id == u.id && c.name@ == u.name@
                        && c.picture.deep_view() == u.picture.deep_view() && c.date_of_birth
                        == u.date_of_birth
                } else {
                    r matches Err(UsersManagerError::PasswordMismatch)
                }
            },
    {
        let user = self.get_user(name)?;
        let candidate = stretch_password(password.as_bytes(), &user.salt, PBKDF2_ROUNDS);
        if digests_eq(&candidate, &user.encoded_password) {
            Ok(user.into())
        } else {
            Err(UsersManagerError::PasswordMismatch)
        }
    }

    /// Open a reset window for the user: any earlier request of theirs is
    /// dropped and a fresh token is handed out.
    pub fn create_password_reset_request(&mut self, user_id: i64) -> (r: Result<
        String,
        UsersManagerError,
    >)
        requires
            old(self).wf(),
        ensures
            final(self).wf(),
            final(self).users@ == old(self).users@,
            final(self).next_user_id == old(self).next_user_id,
            r matches Ok(token) && {
                &&& final(self).reset_requests@.len() > 0
                &&& final(self).reset_requests@.drop_last() == resets_without_user(
                    old(self).reset_requests@,
                    user_id,
                )
                &&& final(self).reset_requests@.last().user_id == user_id
                &&& final(self).reset_requests@.last().uuid == token
            },
    {
        self.drop_resets_of_user(user_id);
        let token = fresh_uuid();
        let now = now_secs();
        let expiry = if now <= u64::MAX - RESET_VALIDITY_SECS {
            now + RESET_VALIDITY_SECS
        } else {
            u64::MAX
        };
        self.reset_requests.push(
            ResetRequest { user_id, uuid: token.clone(), expiry },
        );
        proof {
            assert(self.reset_requests@.drop_last() =~= resets_without_user(
                old(self).reset_requests@,
                user_id,
            ));
        }
        Ok(token)
    }

    /// Consume a reset token: if it belongs to the user and its window has
    /// not closed, the password is replaced; the token, and any other
    /// request of the user or under the token, is dropped either way.
    pub fn change_user_password(&mut self, user_id: i64, uuid: &str, password: &str) -> (r:
        Result<(), UsersManagerError>)
        requires
            old(self).wf(),
        ensures
            final(self).wf(),
            r matches Ok(u),
            final(self).next_user_id == old(self).next_user_id,
            final(self).reset_requests@ == resets_without_user(
                resets_without_uuid(old(self).reset_requests@, uuid@),
                user_id,
            ),
            !has_reset(old(self).reset_requests@, user_id, uuid@) ==> final(self).users@ == old(
                self,
            ).users@,
            has_reset(old(self).reset_requests@, user_id, uuid@) ==> final(self).users@ == old(
                self,
            ).users@ || (id_present(old(self).users@, user_id) && exists|nu: DbUser|
                {
                    &&& final(self).users@ == #[trigger] old(self).users@.update(
                        index_of_id(old(self).users@, user_id),
                        nu,
                    )
                    &&& nu.id == user_id
                    &&& nu.name@ == old(self).users@[index_of_id(old(self).users@, user_id)].name@
                    &&& nu.picture.deep_view() == old(self).users@[index_of_id(
                        old(self).users@,
                        user_id,
                    )].picture.deep_view()
                    &&& nu.date_of_birth == old(self).users@[index_of_id(
                        old(self).users@,
                        user_id,
                    )].date_of_birth
                    &&& nu.encoded_password@ == derived_key(
                        password.spec_bytes(),
                        nu.salt@,
                        PBKDF2_ROUNDS,
                    )
                }),
    {
        let found = self.find_reset(user_id, uuid);
        self.drop_resets_of_uuid(uuid);
        self.drop_resets_of_user(user_id);
        let expiry = match found {
            Some(e) => e,
            None => {
                return Ok(());
            },
        };
        let now = now_secs();
        if now > expiry {
            return Ok(());
        }
        let idx = match self.find_by_id(user_id) {
            Some(i) => i,
            None => {
                return Ok(());
            },
        };
        let salt = random_salt();
        let encoded = stretch_password(password.as_bytes(), &salt, PBKDF2_ROUNDS);
        let row = &self.users[idx];
        let updated = DbUser {
            id: row.id,
            name: row.name.clone(),
            encoded_password: encoded,
            salt,
            picture: clone_opt_string(&row.picture),
            date_of_birth: row.date_of_birth,
        };
        proof {
            let j = index_of_id(self.users@, user_id);
            assert(self.users@[j].id == user_id);
            assert(j == idx);
        }
        self.users.set(idx, updated);
        Ok(())
    }

    /// Find the expiry of the reset request pairing the user with the token.
    fn find_reset(&self, user_id: i64, uuid: &str) -> (r: Option<u64>)
        ensures
            r is Some ==> has_reset(self.reset_requests@, user_id, uuid@),
            r is None ==> !has_reset(self.reset_requests@, user_id, uuid@),
    {
        let mut i: usize = 0;
        while i < self.reset_requests.len()
            invariant
                0 <= i <= self.reset_requests@.len(),
                forall|k: int|
                    0 <= k < i ==> !(self.reset_requests@[k].user_id == user_id
                        && self.reset_requests@[k].uuid@ == uuid@),
            decreases self.reset_requests@.len() - i,
        {
            let row = &self.reset_requests[i];
            if row.user_id == user_id && str_eq(uuid, &row.uuid) {
                return Some(row.expiry);
            }
            i = i + 1;
        }
        None
    }

    /// Drop every reset request of the given user.
    fn drop_resets_of_user(&mut self, user_id: i64)
        ensures
            final(self).users@ == old(self).users@,
            final(self).next_user_id == old(self).next_user_id,
            final(self).reset_requests@ == resets_without_user(
                old(self).reset_requests@,
                user_id,
            ),
    {
        let mut kept: Vec<ResetRequest> = Vec::new();
        let n = self.reset_requests.len();
        let ghost rows = self.reset_requests@;
        for i in 0..n
            invariant
                n == self.reset_requests@.len(),
                self.reset_requests@ == rows,
                kept@ == resets_without_user(rows.take(i as int), user_id),
        {
            let row = &self.reset_requests[i];
            proof {
                assert(rows.take(i + 1).drop_last() =~= rows.take(i as int));
            }
            if row.user_id != user_id {
                let copy = ResetRequest {
                    user_id: row.user_id,
                    uuid: row.uuid.clone(),
                    expiry: row.expiry,
                };
                assert(copy == rows.take(i + 1).last());
                kept.push(copy);
            }
        }
        proof {
            assert(rows.take(n as int) =~= rows);
        }
        self.reset_requests = kept;
    }

    /// Drop every reset request carrying the given token.
    fn drop_resets_of_uuid(&mut self, uuid: &str)
        ensures
            final(self).users@ == old(self).users@,
            final(self).next_user_id == old(self).next_user_id,
            final(self).reset_requests@ == resets_without_uuid(old(self).reset_requests@, uuid@),
    {
        let mut kept: Vec<ResetRequest> = Vec::new();
        let n = self.reset_requests.len();
        let ghost rows = self.reset_requests@;
        for i in 0..n
            invariant
                n == self.reset_requests@.len(),
                self.reset_requests@ == rows,
                kept@ == resets_without_uuid(rows.take(i as int), uuid@),
        {
            let row = &self.reset_requests[i];
            proof {
                assert(rows.take(i + 1).drop_last() =~= rows.take(i as int));
            }
            if !str_eq(uuid, &row.uuid) {
                let copy = ResetRequest {
                    user_id: row.user_id,
                    uuid: row.uuid.clone(),
                    expiry: row.expiry,
                };
                assert(copy == rows.take(i + 1).last());
                kept.push(copy);
            }
        }
        proof {
            assert(rows.take(n as int) =~= rows);
        }
        self.reset_requests = kept;
    }
}

} // verus!
