//! The durable user database: user rows, outstanding password-reset
//! requests, and registered passkeys.
//!
//! Emails are unique across users; a user has at most one outstanding
//! reset request (a new request supersedes the old one); reset requests
//! and passkeys always refer to existing users. Users are never removed
//! here, matching the scope of the store.

use vstd::prelude::*;

use crate::assoc::{
    distinct_keys, lemma_get_push, lemma_get_remove, lemma_get_some_contains, lemma_push_contains,
    lemma_push_distinct, lemma_remove_absent, lemma_remove_contains, lemma_remove_distinct, lookup, remove_entry,
    remove_key, spec_get, upsert,
};
use crate::email::EMail;
use crate::errors::AuthError;
use crate::token::new_token;
use crate::webauthn::lemma_passkeys_push;
use crate::webauthn::passkeys_of;
use webauthn_rs::prelude::Passkey;

verus! {

/// A row of the user table.
pub struct UserRecord {
    /// The user's display name (a trimmed, validated name).
    pub name: String,
    /// The user's unique email address.
    pub email: String,
    /// The argon2 hash string of the user's password.
    pub password_hash: String,
}

/// A user as handed to callers: never carries the password hash.
#[derive(Clone, Debug, PartialEq, Eq)]
pub struct User {
    /// The user's id.
    pub id: u128,
    /// The user's display name.
    pub name: String,
    /// The user's email address.
    pub email: EMail,
}

/// The first user row carrying the email `e`.
pub open spec fn user_with_email_seq(s: Seq<(u128, UserRecord)>, e: Seq<char>) -> Option<
    (u128, UserRecord),
>
    decreases s.len(),
{
    if s.len() == 0 {
        None
    } else if s[0].1.email@ == e {
        Some(s[0])
    } else {
        user_with_email_seq(s.drop_first(), e)
    }
}

/// The first reset token issued to `uid`, if any.
pub open spec fn reset_of_user_seq(s: Seq<(u128, u128)>, uid: u128) -> Option<u128>
    decreases s.len(),
{
    if s.len() == 0 {
        None
    } else if s[0].1 == uid {
        Some(s[0].0)
    } else {
        reset_of_user_seq(s.drop_first(), uid)
    }
}

/// The mathematical state of a [`UserDb`].
#[verifier::ext_equal]
pub struct DbModel {
    /// User rows, keyed by user id.
    pub users: Seq<(u128, UserRecord)>,
    /// Outstanding reset requests: token to user.
    pub resets: Seq<(u128, u128)>,
    /// Registered passkeys, each owned by a user.
    pub passkeys: Seq<(u128, Passkey)>,
}

impl DbModel {
    /// The user row under id `uid`.
    pub open spec fn user(self, uid: u128) -> Option<UserRecord> {
        spec_get(self.users, uid)
    }

    /// The user row carrying email `e`.
    pub open spec fn user_by_email(self, e: Seq<char>) -> Option<(u128, UserRecord)> {
        user_with_email_seq(self.users, e)
    }

    /// The user a reset token belongs to.
    pub open spec fn reset_user(self, token: u128) -> Option<u128> {
        spec_get(self.resets, token)
    }

    /// The reset token outstanding for `uid`, if any.
    pub open spec fn reset_of_user(self, uid: u128) -> Option<u128> {
        reset_of_user_seq(self.resets, uid)
    }

    /// The passkeys registered for `uid`, in registration order.
    pub open spec fn user_passkeys(self, uid: u128) -> Seq<Passkey> {
        passkeys_of(self.passkeys, uid)
    }

    /// Well-formedness: distinct ids and reset tokens, unique emails,
    /// at most one reset per user, and resets and passkeys referring to
    /// existing users.
    pub open spec fn wf(self) -> bool {
        &&& distinct_keys(self.users)
        &&& distinct_keys(self.resets)
        &&& forall|p: (u128, UserRecord), q: (u128, UserRecord)|
            #![trigger self.users.contains(p), self.users.contains(q)]
            self.users.contains(p) && self.users.contains(q) && p.1.email@ == q.1.email@ ==> p.0
                == q.0
        &&& forall|p: (u128, u128), q: (u128, u128)|
            #![trigger self.resets.contains(p), self.resets.contains(q)]
            self.resets.contains(p) && self.resets.contains(q) && p.1 == q.1 ==> p == q
        &&& forall|p: (u128, u128)| #[trigger] self.resets.contains(p) ==> self.user(p.1) is Some
        &&& forall|p: (u128, Passkey)| #[trigger]
            self.passkeys.contains(p) ==> self.user(p.0) is Some
    }

    /// The database after adding a fresh user row.
    pub open spec fn add_user(self, uid: u128, rec: UserRecord) -> DbModel {
        DbModel {
            users: self.users.push((uid, rec)),
            resets: self.resets,
            passkeys: self.passkeys,
        }
    }

    /// The database after replacing the row of `uid`.
    pub open spec fn replace_user(self, uid: u128, rec: UserRecord) -> DbModel {
        DbModel {
            users: remove_key(self.users, uid).push((uid, rec)),
            resets: self.resets,
            passkeys: self.passkeys,
        }
    }

    /// The database after `uid`'s outstanding reset request (if any)
    /// was superseded by the fresh token `token`.
    pub open spec fn request_reset(self, uid: u128, token: u128) -> DbModel {
        let base = match self.reset_of_user(uid) {
            Some(old_token) => remove_key(self.resets, old_token),
            None => self.resets,
        };
        DbModel { users: self.users, resets: base.push((token, uid)), passkeys: self.passkeys }
    }

    /// The database after the reset token `token` was consumed.
    pub open spec fn consume_reset(self, token: u128) -> DbModel {
        DbModel {
            users: self.users,
            resets: remove_key(self.resets, token),
            passkeys: self.passkeys,
        }
    }

    /// The database after registering a passkey for `uid`.
    pub open spec fn add_passkey(self, uid: u128, pk: Passkey) -> DbModel {
        DbModel {
            users: self.users,
            resets: self.resets,
            passkeys: self.passkeys.push((uid, pk)),
        }
    }
}

/// The user database.
pub struct UserDb {
    users: Vec<(u128, UserRecord)>,
    resets: Vec<(u128, u128)>,
    passkeys: Vec<(u128, Passkey)>,
}

impl View for UserDb {
    type V = DbModel;

    closed spec fn view(&self) -> DbModel {
        DbModel { users: self.users@, resets: self.resets@, passkeys: self.passkeys@ }
    }
}

impl UserDb {
    /// An empty database.
    pub fn new() -> (r: UserDb)
        ensures
            r@ == (DbModel {
                users: Seq::<(u128, UserRecord)>::empty(),
                resets: Seq::<(u128, u128)>::empty(),
                passkeys: Seq::<(u128, Passkey)>::empty(),
            }),
            r@.wf(),
    {
        let r = UserDb { users: Vec::new(), resets: Vec::new(), passkeys: Vec::new() };
        proof {
            assert(r@ =~= (DbModel {
                users: Seq::<(u128, UserRecord)>::empty(),
                resets: Seq::<(u128, u128)>::empty(),
                passkeys: Seq::<(u128, Passkey)>::empty(),
            }));
        }
        r
    }

    /// The number of registered users.
    pub fn count_user(&self) -> (r: usize)
        ensures
            r == self@.users.len(),
    {
        self.users.len()
    }

    /// Finds the index of the user row carrying `email`.
    fn email_index(&self, email: &String) -> (r: Option<usize>)
        ensures
            match r {
                Some(i) => i < self@.users.len() && self@.users[i as int].1.email@ == email@
                    && self@.user_by_email(email@) == Some(self@.users[i as int]),
                None => self@.user_by_email(email@) is None,
            },
    {
        let n = self.users.len();
        let mut i: usize = 0;
        while i < n
            invariant
                n == self.users@.len(),
                i <= n,
                forall|j: int| 0 <= j < i ==> (#[trigger] self.users@[j]).1.email@ != email@,
            decreases n - i,
        {
            if self.users[i].1.email == *email {
                proof {
                    lemma_uwe_found_at(self.users@, email@, i as int);
                }
                return Some(i);
            }
            i += 1;
        }
        proof {
            lemma_uwe_none(self.users@, email@);
        }
        None
    }

    /// Looks up a user by email; never exposes the password hash.
    pub fn get_user_by_email(&self, email: &EMail) -> (r: Option<User>)
        ensures
            match r {
                Some(u) => self@.user_by_email(email@) matches Some(p) && p.0 == u.id
                    && p.1.name@ == u.name@ && p.1.email@ == u.email@,
                None => self@.user_by_email(email@) is None,
            },
    {
        match self.email_index(email.as_string()) {
            Some(i) => {
                let id = self.users[i].0;
                let name = self.users[i].1.name.clone();
                let email_s = self.users[i].1.email.clone();
                Some(User { id, name, email: EMail::from_stored(email_s) })
            },
            None => None,
        }
    }

    /// Looks up a user by id; never exposes the password hash.
    pub fn get_user_by_id(&self, uid: u128) -> (r: Option<User>)
        ensures
            match r {
                Some(u) => self@.user(uid) matches Some(rec) && u.id == uid && rec.name@ == u.name@
                    && rec.email@ == u.email@,
                None => self@.user(uid) is None,
            },
    {
        match crate::assoc::find_index(&self.users, uid) {
            Some(i) => {
                let name = self.users[i].1.name.clone();
                let email_s = self.users[i].1.email.clone();
                Some(User { id: uid, name, email: EMail::from_stored(email_s) })
            },
            None => None,
        }
    }

    /// The stored password hash of the user carrying `email`, with the
    /// user's id and name, for credential checking.
    pub fn credentials_by_email(&self, email: &EMail) -> (r: Option<(User, String)>)
        ensures
            match r {
                Some((u, hash)) => self@.user_by_email(email@) matches Some(p) && p.0 == u.id
                    && p.1.name@ == u.name@ && p.1.email@ == u.email@ && p.1.password_hash@
                    == hash@,
                None => self@.user_by_email(email@) is None,
            },
    {
        match self.email_index(email.as_string()) {
            Some(i) => {
                let id = self.users[i].0;
                let name = self.users[i].1.name.clone();
                let email_s = self.users[i].1.email.clone();
                let hash = self.users[i].1.password_hash.clone();
                Some((User { id, name, email: EMail::from_stored(email_s) }, hash))
            },
            None => None,
        }
    }

    /// The stored fields (name, email, password hash) of a user row,
    /// for rebuilding it in an update.
    pub fn get_record_fields(&self, uid: u128) -> (r: Option<(String, String, String)>)
        ensures
            match r {
                Some((name, email, hash)) => self@.user(uid) matches Some(rec) && rec.name@
                    == name@ && rec.email@ == email@ && rec.password_hash@ == hash@,
                None => self@.user(uid) is None,
            },
    {
        match crate::assoc::find_index(&self.users, uid) {
            Some(i) => Some(
                (
                    self.users[i].1.name.clone(),
                    self.users[i].1.email.clone(),
                    self.users[i].1.password_hash.clone(),
                ),
            ),
            None => None,
        }
    }

    /// Inserts a user row under a fresh id; refuses an id or email
    /// collision as a storage conflict, with the database unchanged.
    pub fn insert_user(&mut self, uid: u128, rec: UserRecord) -> (r: Result<(), AuthError>)
        requires
            old(self)@.wf(),
        ensures
            r is Ok <==> old(self)@.user(uid) is None && old(self)@.user_by_email(rec.email@)
                is None,
            r is Ok ==> final(self)@ == old(self)@.add_user(uid, rec),
            r matches Err(e) ==> e is StorageError && final(self)@ == old(self)@,
            final(self)@.wf(),
            r is Ok ==> final(self)@.user(uid) == Some(rec),
    {
        let ghost m0 = self@;
        if lookup_user(&self.users, uid).is_some() {
            return Err(AuthError::StorageError);
        }
        if self.email_index(&rec.email).is_some() {
            return Err(AuthError::StorageError);
        }
        proof {
            lemma_add_user_wf(m0, uid, rec);
        }
        self.users.push((uid, rec));
        proof {
            assert(final(self)@ =~= m0.add_user(uid, rec));
            lemma_get_push(m0.users, (uid, rec), uid);
        }
        Ok(())
    }

    /// Replaces the row of an existing user; refuses an email that
    /// another user already carries.
    pub fn replace_user(&mut self, uid: u128, rec: UserRecord) -> (r: Result<(), AuthError>)
        requires
            old(self)@.wf(),
        ensures
            r is Ok <==> old(self)@.user(uid) is Some && (old(self)@.user_by_email(rec.email@)
                matches Some(p) ==> p.0 == uid),
            r is Ok ==> final(self)@ == old(self)@.replace_user(uid, rec) && final(self)@.user(uid)
                == Some(rec),
            r matches Err(e) ==> (e is StorageError || e is UserNotFound) && final(self)@ == old(self)@,
            r matches Err(e) ==> (e is UserNotFound <==> old(self)@.user(uid) is None),
            final(self)@.wf(),
    {
        let ghost m0 = self@;
        if lookup_user(&self.users, uid).is_none() {
            return Err(AuthError::UserNotFound);
        }
        match self.email_index(&rec.email) {
            Some(i) => {
                if self.users[i].0 != uid {
                    return Err(AuthError::StorageError);
                }
            },
            None => {},
        }
        upsert(&mut self.users, uid, rec);
        proof {
            assert(final(self)@ =~= m0.replace_user(uid, rec));
            lemma_get_remove(m0.users, uid, uid);
            lemma_get_push(remove_key(m0.users, uid), (uid, rec), uid);
            lemma_replace_user_wf(m0, uid, rec);
        }
        Ok(())
    }

    /// Creates (or refreshes) the reset request for `uid` under a fresh
    /// random token, superseding any outstanding one, and returns the
    /// token.
    pub fn new_reset_request(&mut self, uid: u128) -> (r: Result<u128, AuthError>)
        requires
            old(self)@.wf(),
            old(self)@.user(uid) is Some,
        ensures
            r matches Ok(token) ==> old(self)@.reset_user(token) is None && final(self)@ == old(self)@.request_reset(uid, token) && final(self)@.reset_user(token) == Some(uid),
            r matches Err(e) ==> e is StorageError && final(self)@ == old(self)@,
            final(self)@.wf(),
    {
        let ghost m0 = self@;
        let token = new_token();
        if lookup(&self.resets, token).is_some() {
            return Err(AuthError::StorageError);
        }
        match self.find_reset_index(uid) {
            Some(i) => {
                let old_token = self.resets[i].0;
                proof {
                    lemma_rou_some_get(m0.resets, uid);
                }
                remove_entry(&mut self.resets, old_token);
            },
            None => {},
        }
        let ghost m1 = self@;
        proof {
            lemma_request_reset_wf(m0, uid, token);
            if m0.reset_of_user(uid) is Some {
                lemma_get_remove(m0.resets, m0.reset_of_user(uid).unwrap(), token);
            }
        }
        self.resets.push((token, uid));
        proof {
            assert(final(self)@ =~= m0.request_reset(uid, token));
            lemma_get_push(m1.resets, (token, uid), token);
        }
        Ok(token)
    }

    /// Finds the index of `uid`'s outstanding reset request.
    fn find_reset_index(&self, uid: u128) -> (r: Option<usize>)
        ensures
            match r {
                Some(i) => i < self@.resets.len() && self@.resets[i as int].1 == uid
                    && self@.reset_of_user(uid) == Some(self@.resets[i as int].0),
                None => self@.reset_of_user(uid) is None,
            },
    {
        let n = self.resets.len();
        let mut i: usize = 0;
        while i < n
            invariant
                n == self.resets@.len(),
                i <= n,
                forall|j: int| 0 <= j < i ==> (#[trigger] self.resets@[j]).1 != uid,
            decreases n - i,
        {
            if self.resets[i].1 == uid {
                proof {
                    lemma_rou_found_at(self.resets@, uid, i as int);
                }
                return Some(i);
            }
            i += 1;
        }
        proof {
            lemma_rou_none(self.resets@, uid);
        }
        None
    }

    /// Whether a reset token is outstanding.
    pub fn reset_token_is_valid(&self, token: u128) -> (r: bool)
        ensures
            r == (self@.reset_user(token) is Some),
    {
        lookup(&self.resets, token).is_some()
    }

    /// Consumes a reset token: removes it and returns the user it was
    /// issued to. `None` leaves the database unchanged.
    pub fn consume_reset(&mut self, token: u128) -> (r: Option<u128>)
        requires
            old(self)@.wf(),
        ensures
            r == old(self)@.reset_user(token),
            r is Some ==> final(self)@ == old(self)@.consume_reset(token) && final(self)@.user(
                r.unwrap(),
            ) is Some,
            r is None ==> final(self)@ == old(self)@,
            final(self)@.wf(),
            final(self)@.reset_user(token) is None,
    {
        let ghost m0 = self@;
        let r = remove_entry(&mut self.resets, token);
        proof {
            lemma_get_remove(m0.resets, token, token);
            if r is None {
                lemma_remove_absent(m0.resets, token);
                assert(final(self)@ =~= m0);
            } else {
                assert(final(self)@ =~= m0.consume_reset(token));
                lemma_get_some_contains(m0.resets, token);
                lemma_consume_reset_wf(m0, token);
            }
        }
        r
    }

    /// Replaces the stored password hash of an existing user.
    pub fn set_password_hash(&mut self, uid: u128, hash: String) -> (r: Result<(), AuthError>)
        requires
            old(self)@.wf(),
        ensures
            r is Ok <==> old(self)@.user(uid) is Some,
            r is Ok ==> (old(self)@.user(uid) matches Some(rec) && final(self)@ == old(self)@.replace_user(
                uid,
                UserRecord { name: rec.name, email: rec.email, password_hash: hash },
            )),
            r is Ok ==> (final(self)@.user(uid) matches Some(rec2) && rec2.password_hash@ == hash@
                && rec2.name@ == old(self)@.user(uid).unwrap().name@ && rec2.email@ == old(self)@.user(uid).unwrap().email@),
            r matches Err(e) ==> e is UserNotFound && final(self)@ == old(self)@,
            final(self)@.wf(),
    {
        let ghost m0 = self@;
        let (name, email) = match crate::assoc::find_index(&self.users, uid) {
            Some(i) => (self.users[i].1.name.clone(), self.users[i].1.email.clone()),
            None => {
                return Err(AuthError::UserNotFound);
            },
        };
        let rec = UserRecord { name, email, password_hash: hash };
        upsert(&mut self.users, uid, rec);
        proof {
            assert(final(self)@ =~= m0.replace_user(uid, rec));
            lemma_get_remove(m0.users, uid, uid);
            lemma_get_push(remove_key(m0.users, uid), (uid, rec), uid);
            lemma_get_some_contains(m0.users, uid);
            lemma_uwe_from_contains(m0.users, (uid, m0.user(uid).unwrap()));
            lemma_uwe_contains(m0.users, rec.email@);
            lemma_replace_user_wf(m0, uid, rec);
        }
        Ok(())
    }

    /// Registers a passkey for an existing user.
    pub fn add_passkey(&mut self, uid: u128, pk: Passkey) -> (r: Result<(), AuthError>)
        requires
            old(self)@.wf(),
        ensures
            r is Ok <==> old(self)@.user(uid) is Some,
            r is Ok ==> final(self)@ == old(self)@.add_passkey(uid, pk) && final(self)@.user_passkeys(uid) == old(self)@.user_passkeys(uid).push(pk),
            r matches Err(e) ==> e is UserNotFound && final(self)@ == old(self)@,
            final(self)@.wf(),
    {
        let ghost m0 = self@;
        if lookup_user(&self.users, uid).is_none() {
            return Err(AuthError::UserNotFound);
        }
        self.passkeys.push((uid, pk));
        proof {
            assert(final(self)@ =~= m0.add_passkey(uid, pk));
            lemma_passkeys_push(m0.passkeys, (uid, pk), uid);
            assert forall|p: (u128, Passkey)| #[trigger]
                m0.passkeys.push((uid, pk)).contains(p) implies spec_get(m0.users, p.0)
                is Some by {
                lemma_push_contains(m0.passkeys, (uid, pk), p);
            }
        }
        Ok(())
    }

    /// The passkeys registered for `uid`, in registration order.
    pub fn passkeys_for_user(&self, uid: u128) -> (r: Vec<Passkey>)
        ensures
            r@ == self@.user_passkeys(uid),
    {
        let n = self.passkeys.len();
        let mut out: Vec<Passkey> = Vec::new();
        let mut i: usize = 0;
        while i < n
            invariant
                n == self.passkeys@.len(),
                i <= n,
                out@ == passkeys_of(self.passkeys@.take(i as int), uid),
            decreases n - i,
        {
            proof {
                assert(self.passkeys@.take(i + 1) =~= self.passkeys@.take(i as int).push(
                    self.passkeys@[i as int],
                ));
                lemma_passkeys_push(
                    self.passkeys@.take(i as int),
                    self.passkeys@[i as int],
                    uid,
                );
            }
            if self.passkeys[i].0 == uid {
                out.push(self.passkeys[i].1.clone());
            }
            i += 1;
        }
        proof {
            assert(self.passkeys@.take(n as int) =~= self.passkeys@);
        }
        out
    }
}

/// Looks up a user row without copying it.
fn lookup_user(v: &Vec<(u128, UserRecord)>, k: u128) -> (r: Option<&UserRecord>)
    ensures
        r is Some <==> spec_get(v@, k) is Some,
        r matches Some(rec) ==> spec_get(v@, k) == Some(*rec),
{
    match crate::assoc::find_index(v, k) {
        Some(i) => Some(&v[i].1),
        None => None,
    }
}

/// One bootstrap step at the model level: an admin row appears when,
/// and only when, the table is empty.
pub open spec fn bootstrap_step(m: DbModel, uid: u128, rec: UserRecord) -> DbModel {
    if m.users.len() == 0 {
        m.add_user(uid, rec)
    } else {
        m
    }
}

/// Any number of bootstrap steps, applied in order.
pub open spec fn bootstrap_fold(m: DbModel, steps: Seq<(u128, UserRecord)>) -> DbModel
    decreases steps.len(),
{
    if steps.len() == 0 {
        m
    } else {
        bootstrap_fold(bootstrap_step(m, steps[0].0, steps[0].1), steps.drop_first())
    }
}

/// Bootstrap steps never touch a non-empty user table.
pub proof fn lemma_bootstrap_nonempty_fixed(m: DbModel, steps: Seq<(u128, UserRecord)>)
    requires
        m.users.len() >= 1,
    ensures
        bootstrap_fold(m, steps) == m,
    decreases steps.len(),
{
    if steps.len() > 0 {
        lemma_bootstrap_nonempty_fixed(m, steps.drop_first());
    }
}

/// Admin bootstrap idempotence: however many bootstrap attempts run
/// against a store that starts empty, exactly one user row survives
/// — the first attempt's, and every later attempt changes nothing.
pub proof fn lemma_bootstrap_exactly_one(m: DbModel, steps: Seq<(u128, UserRecord)>)
    requires
        m.users.len() == 0,
        steps.len() > 0,
    ensures
        bootstrap_fold(m, steps).users.len() == 1,
        bootstrap_fold(m, steps) == m.add_user(steps[0].0, steps[0].1),
{
    let m1 = bootstrap_step(m, steps[0].0, steps[0].1);
    lemma_bootstrap_nonempty_fixed(m1, steps.drop_first());
}

/// Registration makes the user findable: after adding a row under a
/// fresh id and a fresh email, looking that email up yields exactly
/// the new row, credential record included. Together with the login
/// contract, a login with the registered email and password then
/// succeeds, as the stored hash verifies against that password.
pub proof fn lemma_register_then_login(m: DbModel, uid: u128, rec: UserRecord)
    requires
        m.user_by_email(rec.email@) is None,
        m.user(uid) is None,
    ensures
        m.add_user(uid, rec).user_by_email(rec.email@) == Some((uid, rec)),
        m.add_user(uid, rec).user(uid) == Some(rec),
{
    lemma_uwe_no_email(m.users, rec.email@);
    lemma_uwe_push(m.users, (uid, rec), rec.email@);
    lemma_get_push(m.users, (uid, rec), uid);
}

/// Pushing a row with a yet-unseen email makes it the row its email
/// finds.
proof fn lemma_uwe_push(s: Seq<(u128, UserRecord)>, p: (u128, UserRecord), e: Seq<char>)
    requires
        forall|q: (u128, UserRecord)| s.contains(q) ==> (#[trigger] q.1).email@ != e,
        p.1.email@ == e,
    ensures
        user_with_email_seq(s.push(p), e) == Some(p),
    decreases s.len(),
{
    if s.len() == 0 {
        assert(s.push(p)[0] == p);
    } else {
        assert(s.contains(s[0]));
        assert(s.push(p).drop_first() =~= s.drop_first().push(p));
        assert forall|q: (u128, UserRecord)| s.drop_first().contains(q) implies (
        #[trigger] q.1).email@ != e by {
            let i = choose|i: int| 0 <= i < s.drop_first().len() && s.drop_first()[i] == q;
            assert(s[i + 1] == q);
        }
        lemma_uwe_push(s.drop_first(), p, e);
    }
}

/// A fresh reset token supersedes the outstanding one: after two
/// requests for the same user, the first token no longer resolves, and
/// the second is the user's one outstanding token.
pub proof fn lemma_reset_supersedes(m: DbModel, uid: u128, t1: u128, t2: u128)
    requires
        m.wf(),
        m.user(uid) is Some,
        m.reset_user(t1) is None,
        m.request_reset(uid, t1).reset_user(t2) is None,
        t1 != t2,
    ensures
        m.request_reset(uid, t1).request_reset(uid, t2).reset_user(t1) is None,
        m.request_reset(uid, t1).request_reset(uid, t2).reset_user(t2) == Some(uid),
{
    let base1 = match m.reset_of_user(uid) {
        Some(old_token) => remove_key(m.resets, old_token),
        None => m.resets,
    };
    let m1 = m.request_reset(uid, t1);
    assert(m1.resets == base1.push((t1, uid)));
    assert forall|q: (u128, u128)| base1.contains(q) implies (#[trigger] q.1) != uid by {
        match m.reset_of_user(uid) {
            Some(old_token) => {
                lemma_rou_some_get(m.resets, uid);
                lemma_remove_contains(m.resets, old_token, q);
            },
            None => {
                lemma_rou_no_user(m.resets, uid);
            },
        }
    }
    lemma_rou_push(base1, (t1, uid), uid);
    assert(m1.reset_of_user(uid) == Some(t1));
    let base2 = remove_key(m1.resets, t1);
    let m2 = m1.request_reset(uid, t2);
    assert(m2.resets == base2.push((t2, uid)));
    lemma_get_remove(m1.resets, t1, t1);
    lemma_get_remove(m1.resets, t1, t2);
    lemma_get_push(base2, (t2, uid), t1);
    lemma_get_push(base2, (t2, uid), t2);
}

/// Pushing a reset pair for a user with no outstanding reset makes it
/// the user's one outstanding reset.
proof fn lemma_rou_push(s: Seq<(u128, u128)>, p: (u128, u128), uid: u128)
    requires
        forall|q: (u128, u128)| s.contains(q) ==> (#[trigger] q.1) != uid,
        p.1 == uid,
    ensures
        reset_of_user_seq(s.push(p), uid) == Some(p.0),
    decreases s.len(),
{
    if s.len() == 0 {
        assert(s.push(p)[0] == p);
    } else {
        assert(s.contains(s[0]));
        assert(s.push(p).drop_first() =~= s.drop_first().push(p));
        assert forall|q: (u128, u128)| s.drop_first().contains(q) implies (#[trigger] q.1)
            != uid by {
            let i = choose|i: int| 0 <= i < s.drop_first().len() && s.drop_first()[i] == q;
            assert(s[i + 1] == q);
        }
        lemma_rou_push(s.drop_first(), p, uid);
    }
}

/// A reset token works exactly once: after it is consumed it no longer
/// resolves, so a second consumption finds nothing.
pub proof fn lemma_reset_single_use(m: DbModel, token: u128)
    ensures
        m.consume_reset(token).reset_user(token) is None,
        m.consume_reset(token).consume_reset(token).resets == m.consume_reset(token).resets,
{
    lemma_get_remove(m.resets, token, token);
    lemma_remove_absent(remove_key(m.resets, token), token);
}

/// Emails being unique, looking up a user's own email finds that very
/// user.
pub proof fn lemma_own_email_maps_to_self(m: DbModel, uid: u128)
    requires
        m.wf(),
        m.user(uid) is Some,
    ensures
        m.user_by_email(m.user(uid).unwrap().email@) matches Some(p) && p.0 == uid,
{
    let rec = m.user(uid).unwrap();
    lemma_get_some_contains(m.users, uid);
    lemma_uwe_from_contains(m.users, (uid, rec));
    lemma_uwe_contains(m.users, rec.email@);
}

/// The user row found by email is a row of the table: its id is bound.
pub proof fn lemma_user_by_email_user(m: DbModel, e: Seq<char>)
    requires
        m.user_by_email(e) is Some,
    ensures
        m.user(m.user_by_email(e).unwrap().0) is Some,
{
    lemma_uwe_contains(m.users, e);
    let p = m.user_by_email(e).unwrap();
    let i = choose|i: int| 0 <= i < m.users.len() && m.users[i] == p;
    crate::assoc::lemma_get_key_exists(m.users, p.0);
}

/// When the first row already carries email `e`, it is the one found.
pub proof fn lemma_uwe_first(s: Seq<(u128, UserRecord)>, e: Seq<char>)
    requires
        s.len() > 0,
        s[0].1.email@ == e,
    ensures
        user_with_email_seq(s, e) == Some(s[0]),
{
}

/// If a row with email `e` is at `i` and none earlier, the first row
/// with that email is the one at `i`.
proof fn lemma_uwe_found_at(s: Seq<(u128, UserRecord)>, e: Seq<char>, i: int)
    requires
        0 <= i < s.len(),
        s[i].1.email@ == e,
        forall|j: int| 0 <= j < i ==> (#[trigger] s[j]).1.email@ != e,
    ensures
        user_with_email_seq(s, e) == Some(s[i]),
    decreases i,
{
    if i > 0 {
        assert(forall|j: int|
            0 <= j < s.drop_first().len() ==> (#[trigger] s.drop_first()[j]) == s[j + 1]);
        lemma_uwe_found_at(s.drop_first(), e, i - 1);
    }
}

/// If no row carries email `e`, none is found.
proof fn lemma_uwe_none(s: Seq<(u128, UserRecord)>, e: Seq<char>)
    requires
        forall|j: int| 0 <= j < s.len() ==> (#[trigger] s[j]).1.email@ != e,
    ensures
        user_with_email_seq(s, e) is None,
    decreases s.len(),
{
    if s.len() > 0 {
        assert(forall|j: int|
            0 <= j < s.drop_first().len() ==> (#[trigger] s.drop_first()[j]) == s[j + 1]);
        lemma_uwe_none(s.drop_first(), e);
    }
}

/// A found row is one of the pairs.
proof fn lemma_uwe_contains(s: Seq<(u128, UserRecord)>, e: Seq<char>)
    requires
        user_with_email_seq(s, e) is Some,
    ensures
        s.contains(user_with_email_seq(s, e).unwrap()),
        user_with_email_seq(s, e).unwrap().1.email@ == e,
    decreases s.len(),
{
    if s.len() > 0 {
        if s[0].1.email@ == e {
            assert(s.contains(s[0]));
        } else {
            lemma_uwe_contains(s.drop_first(), e);
            let p = user_with_email_seq(s, e).unwrap();
            let i = choose|i: int| 0 <= i < s.drop_first().len() && s.drop_first()[i] == p;
            assert(s[i + 1] == p);
        }
    }
}

/// If a reset for `uid` is at `i` and none earlier, the first one is
/// the one at `i`.
proof fn lemma_rou_found_at(s: Seq<(u128, u128)>, uid: u128, i: int)
    requires
        0 <= i < s.len(),
        s[i].1 == uid,
        forall|j: int| 0 <= j < i ==> (#[trigger] s[j]).1 != uid,
    ensures
        reset_of_user_seq(s, uid) == Some(s[i].0),
    decreases i,
{
    if i > 0 {
        assert(forall|j: int|
            0 <= j < s.drop_first().len() ==> (#[trigger] s.drop_first()[j]) == s[j + 1]);
        lemma_rou_found_at(s.drop_first(), uid, i - 1);
    }
}

/// If no pair is a reset for `uid`, none is found.
proof fn lemma_rou_none(s: Seq<(u128, u128)>, uid: u128)
    requires
        forall|j: int| 0 <= j < s.len() ==> (#[trigger] s[j]).1 != uid,
    ensures
        reset_of_user_seq(s, uid) is None,
    decreases s.len(),
{
    if s.len() > 0 {
        assert(forall|j: int|
            0 <= j < s.drop_first().len() ==> (#[trigger] s.drop_first()[j]) == s[j + 1]);
        lemma_rou_none(s.drop_first(), uid);
    }
}

/// The found reset of `uid` is a binding of the table.
proof fn lemma_rou_some_get(s: Seq<(u128, u128)>, uid: u128)
    requires
        distinct_keys(s),
        reset_of_user_seq(s, uid) is Some,
    ensures
        spec_get(s, reset_of_user_seq(s, uid).unwrap()) == Some(uid),
        s.contains((reset_of_user_seq(s, uid).unwrap(), uid)),
    decreases s.len(),
{
    if s.len() > 0 {
        if s[0].1 == uid {
            assert(s.contains(s[0]));
        } else {
            assert(forall|j: int|
                0 <= j < s.drop_first().len() ==> (#[trigger] s.drop_first()[j]) == s[j + 1]);
            lemma_rou_some_get(s.drop_first(), uid);
            let t = reset_of_user_seq(s, uid).unwrap();
            assert(s.drop_first().contains((t, uid)));
            let j = choose|j: int| 0 <= j < s.drop_first().len() && s.drop_first()[j] == (t, uid);
            assert(s[j + 1] == (t, uid));
            assert(s[0].0 != t);
        }
    }
}

/// When no reset is outstanding for `uid`, no pair names `uid`.
proof fn lemma_rou_no_user(s: Seq<(u128, u128)>, uid: u128)
    requires
        reset_of_user_seq(s, uid) is None,
    ensures
        forall|p: (u128, u128)| s.contains(p) ==> (#[trigger] p.1) != uid,
    decreases s.len(),
{
    if s.len() > 0 {
        assert(forall|j: int|
            0 <= j < s.drop_first().len() ==> (#[trigger] s.drop_first()[j]) == s[j + 1]);
        lemma_rou_no_user(s.drop_first(), uid);
        assert forall|p: (u128, u128)| s.contains(p) implies (#[trigger] p.1) != uid by {
            let i = choose|i: int| 0 <= i < s.len() && s[i] == p;
            if i > 0 {
                assert(s.drop_first()[i - 1] == p);
                assert(s.drop_first().contains(p));
            }
        }
    }
}

/// Adding a user with a fresh id and email keeps the database
/// well-formed.
proof fn lemma_add_user_wf(m: DbModel, uid: u128, rec: UserRecord)
    requires
        m.wf(),
        m.user(uid) is None,
        m.user_by_email(rec.email@) is None,
    ensures
        m.add_user(uid, rec).wf(),
{
    let s2 = m.users.push((uid, rec));
    lemma_push_distinct(m.users, (uid, rec));
    lemma_uwe_no_email(m.users, rec.email@);
    assert forall|p: (u128, UserRecord), q: (u128, UserRecord)|
        s2.contains(p) && s2.contains(q) && p.1.email@ == q.1.email@ implies p.0 == q.0 by {
        lemma_push_contains(m.users, (uid, rec), p);
        lemma_push_contains(m.users, (uid, rec), q);
    }
    assert forall|p: (u128, u128)| #[trigger] m.resets.contains(p) implies spec_get(s2, p.1)
        is Some by {
        lemma_get_push(m.users, (uid, rec), p.1);
    }
    assert forall|p: (u128, Passkey)| #[trigger] m.passkeys.contains(p) implies spec_get(s2, p.0)
        is Some by {
        lemma_get_push(m.users, (uid, rec), p.0);
    }
}

/// When no row carries email `e`, no pair does.
proof fn lemma_uwe_no_email(s: Seq<(u128, UserRecord)>, e: Seq<char>)
    requires
        user_with_email_seq(s, e) is None,
    ensures
        forall|p: (u128, UserRecord)| s.contains(p) ==> (#[trigger] p.1).email@ != e,
    decreases s.len(),
{
    if s.len() > 0 {
        assert(forall|j: int|
            0 <= j < s.drop_first().len() ==> (#[trigger] s.drop_first()[j]) == s[j + 1]);
        lemma_uwe_no_email(s.drop_first(), e);
        assert forall|p: (u128, UserRecord)| s.contains(p) implies (#[trigger] p.1).email@
            != e by {
            let i = choose|i: int| 0 <= i < s.len() && s[i] == p;
            if i > 0 {
                assert(s.drop_first()[i - 1] == p);
                assert(s.drop_first().contains(p));
            }
        }
    }
}

/// Replacing an existing user's row (with an email no other user
/// carries) keeps the database well-formed.
proof fn lemma_replace_user_wf(m: DbModel, uid: u128, rec: UserRecord)
    requires
        m.wf(),
        m.user(uid) is Some,
        m.user_by_email(rec.email@) matches Some(p) ==> p.0 == uid,
    ensures
        m.replace_user(uid, rec).wf(),
{
    let base = remove_key(m.users, uid);
    let s2 = base.push((uid, rec));
    lemma_remove_distinct(m.users, uid);
    lemma_push_distinct(base, (uid, rec));
    assert forall|p: (u128, UserRecord), q: (u128, UserRecord)|
        s2.contains(p) && s2.contains(q) && p.1.email@ == q.1.email@ implies p.0 == q.0 by {
        lemma_push_contains(base, (uid, rec), p);
        lemma_push_contains(base, (uid, rec), q);
        lemma_remove_contains(m.users, uid, p);
        lemma_remove_contains(m.users, uid, q);
        if p == (uid, rec) && m.users.contains(q) && q.1.email@ == rec.email@ {
            lemma_uwe_from_contains(m.users, q);
            lemma_uwe_contains(m.users, rec.email@);
        }
        if q == (uid, rec) && m.users.contains(p) && p.1.email@ == rec.email@ {
            lemma_uwe_from_contains(m.users, p);
            lemma_uwe_contains(m.users, rec.email@);
        }
    }
    assert forall|p: (u128, u128)| #[trigger] m.resets.contains(p) implies spec_get(s2, p.1)
        is Some by {
        lemma_get_push(base, (uid, rec), p.1);
        lemma_get_remove(m.users, uid, p.1);
    }
    assert forall|p: (u128, Passkey)| #[trigger] m.passkeys.contains(p) implies spec_get(s2, p.0)
        is Some by {
        lemma_get_push(base, (uid, rec), p.0);
        lemma_get_remove(m.users, uid, p.0);
    }
}

/// A row in the table means the lookup by its email finds a row with
/// the same email and, emails being unique, the same id.
proof fn lemma_uwe_from_contains(s: Seq<(u128, UserRecord)>, p: (u128, UserRecord))
    requires
        s.contains(p),
    ensures
        user_with_email_seq(s, p.1.email@) is Some,
    decreases s.len(),
{
    if s.len() > 0 {
        if s[0].1.email@ == p.1.email@ {
        } else {
            let i = choose|i: int| 0 <= i < s.len() && s[i] == p;
            assert(i > 0);
            assert(s.drop_first()[i - 1] == p);
            assert(s.drop_first().contains(p));
            lemma_uwe_from_contains(s.drop_first(), p);
        }
    }
}

/// Superseding `uid`'s reset request with a fresh token keeps the
/// database well-formed.
proof fn lemma_request_reset_wf(m: DbModel, uid: u128, token: u128)
    requires
        m.wf(),
        m.user(uid) is Some,
        m.reset_user(token) is None,
    ensures
        m.request_reset(uid, token).wf(),
{
    let base = match m.reset_of_user(uid) {
        Some(old_token) => remove_key(m.resets, old_token),
        None => m.resets,
    };
    let r2 = base.push((token, uid));
    match m.reset_of_user(uid) {
        Some(old_token) => {
            lemma_rou_some_get(m.resets, uid);
            lemma_remove_distinct(m.resets, old_token);
            lemma_get_remove(m.resets, old_token, token);
            lemma_push_distinct(base, (token, uid));
        },
        None => {
            lemma_push_distinct(m.resets, (token, uid));
        },
    }
    assert forall|p: (u128, u128), q: (u128, u128)|
        r2.contains(p) && r2.contains(q) && p.1 == q.1 implies p == q by {
        lemma_push_contains(base, (token, uid), p);
        lemma_push_contains(base, (token, uid), q);
        match m.reset_of_user(uid) {
            Some(old_token) => {
                lemma_remove_contains(m.resets, old_token, p);
                lemma_remove_contains(m.resets, old_token, q);
                lemma_rou_some_get(m.resets, uid);
                if p == (token, uid) && m.resets.contains(q) && q.1 == uid {
                    assert(m.resets.contains((old_token, uid)));
                }
                if q == (token, uid) && m.resets.contains(p) && p.1 == uid {
                    assert(m.resets.contains((old_token, uid)));
                }
            },
            None => {
                lemma_rou_no_user(m.resets, uid);
            },
        }
    }
    assert forall|p: (u128, u128)| #[trigger] r2.contains(p) implies spec_get(m.users, p.1)
        is Some by {
        lemma_push_contains(base, (token, uid), p);
        match m.reset_of_user(uid) {
            Some(old_token) => {
                lemma_remove_contains(m.resets, old_token, p);
            },
            None => {},
        }
    }
}

/// Consuming a reset token keeps the database well-formed.
proof fn lemma_consume_reset_wf(m: DbModel, token: u128)
    requires
        m.wf(),
    ensures
        m.consume_reset(token).wf(),
{
    lemma_remove_distinct(m.resets, token);
    let r2 = remove_key(m.resets, token);
    assert forall|p: (u128, u128), q: (u128, u128)|
        r2.contains(p) && r2.contains(q) && p.1 == q.1 implies p == q by {
        lemma_remove_contains(m.resets, token, p);
        lemma_remove_contains(m.resets, token, q);
    }
    assert forall|p: (u128, u128)| #[trigger] r2.contains(p) implies spec_get(m.users, p.1)
        is Some by {
        lemma_remove_contains(m.resets, token, p);
    }
}

} // verus!
