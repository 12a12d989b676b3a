//! The auth orchestrator: registration, login/logout, password reset,
//! admin bootstrap, and session-backed user access.
//!
//! Each operation composes the credential verifier, the user database
//! and the session store, and its contract pins the outcome on every
//! input: which error comes back on which state, and how the stores
//! change. Outcomes that hang on the argon2 verdict are stated over
//! [`argon2_check`]; outcomes that hang on a freshly drawn random token
//! state what holds for every draw.

use vstd::prelude::*;

use crate::db::{DbModel, User, UserDb, UserRecord};
use crate::email::{email_ok, EMail};
use crate::errors::{AuthError, FieldViolations};
use crate::name_of_user::{name_ok, NameOfUser};
use crate::password::{argon2_check, password_ok, Password};
use crate::store::SessionStore;
use crate::strutil::trim_spec;
use crate::token::new_token;

verus! {

/// A partial update of a user's profile; absent fields keep their
/// stored value.
pub struct UserUpdate {
    /// The new display name, if it is to change.
    pub name: Option<NameOfUser>,
    /// The new email address, if it is to change.
    pub email: Option<EMail>,
}

/// Registers a new user: validates name, email and password, hashes the
/// password, and inserts the row under a fresh id.
///
/// Invalid fields are rejected together in one `ValidationError`; an
/// email already in use surfaces as the storage conflict the unique
/// constraint would raise.
pub fn register(db: &mut UserDb, name: &str, email: &str, password: &str) -> (r: Result<
    User,
    AuthError,
>)
    requires
        old(db)@.wf(),
    ensures
        final(db)@.wf(),
        !(name_ok(name@) && email_ok(email@) && password_ok(password@)) ==> r == Err::<
            User,
            AuthError,
        >(
            AuthError::ValidationError(
                FieldViolations {
                    name: !name_ok(name@),
                    email: !email_ok(email@),
                    password: !password_ok(password@),
                },
            ),
        ) && final(db)@ == old(db)@,
        r matches Ok(u) ==> ({
            &&& name_ok(name@) && email_ok(email@) && password_ok(password@)
            &&& old(db)@.user_by_email(email@) is None
            &&& old(db)@.user(u.id) is None
            &&& u.name@ == trim_spec(name@)
            &&& u.email@ == email@
            &&& final(db)@.user(u.id) matches Some(rec) && rec.name@ == trim_spec(name@)
                && rec.email@ == email@ && argon2_check(trim_spec(password@), rec.password_hash@)
                == Some(true)
            &&& final(db)@ == old(db)@.add_user(u.id, final(db)@.user(u.id).unwrap())
        }),
        r matches Err(e) && e is StorageError ==> final(db)@ == old(db)@,
        name_ok(name@) && email_ok(email@) && password_ok(password@) && old(db)@.user_by_email(
            email@,
        ) is Some ==> (r matches Err(e) && e is StorageError),
        r matches Err(e) ==> (e is ValidationError || e is StorageError),
{
    let name_r = NameOfUser::new(name);
    let email_r = EMail::new(email);
    let password_r = Password::new(password);
    if name_r.is_err() || email_r.is_err() || password_r.is_err() {
        return Err(
            AuthError::ValidationError(
                FieldViolations {
                    name: name_r.is_err(),
                    email: email_r.is_err(),
                    password: password_r.is_err(),
                },
            ),
        );
    }
    let n = name_r.unwrap();
    let e = email_r.unwrap();
    let p = password_r.unwrap();
    let hash = match p.hash() {
        Ok(h) => h,
        Err(err) => {
            return Err(err);
        },
    };
    let id = new_token();
    let name_s = n.into_inner();
    let email_s = e.into_inner();
    let rec = UserRecord {
        name: name_s.clone(),
        email: email_s.clone(),
        password_hash: hash,
    };
    match db.insert_user(id, rec) {
        Ok(()) => Ok(User { id, name: name_s, email: EMail::from_stored(email_s) }),
        Err(err) => Err(err),
    }
}

/// Logs a user in: looks the user up by email, verifies the password,
/// and establishes a session that supersedes the user's prior one.
///
/// An unknown email is reported as `UserNotFound`, a wrong password as
/// `InvalidCredentials`. The two cases are deliberately distinguished:
/// the policy trades the possibility of user enumeration for clearer
/// feedback, and callers that prefer a uniform answer can collapse the
/// two variants at their boundary.
pub fn login(db: &UserDb, store: &mut SessionStore, email: &EMail, password: &Password) -> (r:
    Result<(User, u128), AuthError>)
    requires
        old(store)@.wf(),
    ensures
        final(store)@.wf(),
        db@.user_by_email(email@) is None ==> r == Err::<(User, u128), AuthError>(
            AuthError::UserNotFound,
        ) && final(store)@ == old(store)@,
        db@.user_by_email(email@) matches Some(row) ==> ({
            let check = argon2_check(password@, row.1.password_hash@);
            &&& check is None ==> (r matches Err(e) && e is HashFormatError) && final(store)@
                == old(store)@
            &&& check == Some(false) ==> r == Err::<(User, u128), AuthError>(
                AuthError::InvalidCredentials,
            ) && final(store)@ == old(store)@
            &&& check == Some(true) ==> match r {
                Ok((u, sid)) => u.id == row.0 && u.name@ == row.1.name@ && u.email@ == row.1.email@
                    && old(store)@.session(sid) is None && final(store)@ == old(store)@.insert_session(sid, row.0) && final(store)@.user_of(sid) == Some(row.0),
                Err(e) => e is StorageError && final(store)@ == old(store)@,
            }
        }),
{
    let (user, hash) = match db.credentials_by_email(email) {
        Some(found) => found,
        None => {
            return Err(AuthError::UserNotFound);
        },
    };
    match password.match_hash(hash.as_str()) {
        Ok(true) => {},
        Ok(false) => {
            return Err(AuthError::InvalidCredentials);
        },
        Err(e) => {
            return Err(e);
        },
    }
    match store.create_session(user.id) {
        Ok(sid) => Ok((user, sid)),
        Err(e) => Err(e),
    }
}

/// Logs a session out: the session disappears from the durable table,
/// the cache and the ceremony slots. Logging out an unknown or already
/// removed session does nothing and is not an error.
pub fn logout(store: &mut SessionStore, sid: u128)
    requires
        old(store)@.wf(),
    ensures
        final(store)@.wf(),
        final(store)@ == old(store)@.drop_session(sid),
        final(store)@.user_of(sid) is None,
{
    store.invalidate(sid);
}

/// Creates (or refreshes) the password-reset request for the user
/// carrying `email` and returns the fresh token; any outstanding token
/// for that user stops working.
pub fn request_password_reset(db: &mut UserDb, email: &EMail) -> (r: Result<u128, AuthError>)
    requires
        old(db)@.wf(),
    ensures
        final(db)@.wf(),
        old(db)@.user_by_email(email@) is None ==> r == Err::<u128, AuthError>(
            AuthError::UserNotFound,
        ) && final(db)@ == old(db)@,
        old(db)@.user_by_email(email@) matches Some(row) ==> match r {
            Ok(token) => old(db)@.reset_user(token) is None && final(db)@ == old(db)@.request_reset(row.0, token) && final(db)@.reset_user(token) == Some(row.0),
            Err(e) => e is StorageError && final(db)@ == old(db)@,
        },
{
    let uid = match db.credentials_by_email(email) {
        Some((user, _)) => user.id,
        None => {
            return Err(AuthError::UserNotFound);
        },
    };
    proof {
        crate::db::lemma_user_by_email_user(db@, email@);
    }
    db.new_reset_request(uid)
}

/// Performs a password reset: consumes the token and, only if it was
/// outstanding, replaces the user's stored hash in the same step.
///
/// An unknown token leaves the database untouched; a token works
/// exactly once.
pub fn perform_password_reset(db: &mut UserDb, token: u128, new_password: &Password) -> (r: Result<
    (),
    AuthError,
>)
    requires
        old(db)@.wf(),
    ensures
        final(db)@.wf(),
        old(db)@.reset_user(token) is None ==> r == Err::<(), AuthError>(AuthError::TokenNotFound)
            && final(db)@ == old(db)@,
        old(db)@.reset_user(token) matches Some(uid) ==> match r {
            Ok(()) => ({
                &&& final(db)@.reset_user(token) is None
                &&& final(db)@.user(uid) matches Some(rec2) && argon2_check(
                    new_password@,
                    rec2.password_hash@,
                ) == Some(true) && rec2.name@ == old(db)@.user(uid).unwrap().name@ && rec2.email@
                    == old(db)@.user(uid).unwrap().email@
                &&& final(db)@ == old(db)@.consume_reset(token).replace_user(
                    uid,
                    final(db)@.user(uid).unwrap(),
                )
            }),
            Err(e) => e is StorageError && final(db)@ == old(db)@,
        },
{
    let hash = match new_password.hash() {
        Ok(h) => h,
        Err(e) => {
            if db.reset_token_is_valid(token) {
                return Err(e);
            } else {
                return Err(AuthError::TokenNotFound);
            }
        },
    };
    let uid = match db.consume_reset(token) {
        Some(uid) => uid,
        None => {
            return Err(AuthError::TokenNotFound);
        },
    };
    match db.set_password_hash(uid, hash) {
        Ok(()) => {
            proof {
                let musers = old(db)@.consume_reset(token).users;
                let xs = db@.users;
                let x = xs[xs.len() - 1].1;
                crate::assoc::lemma_get_remove(musers, uid, uid);
                crate::assoc::lemma_get_push(
                    crate::assoc::remove_key(musers, uid),
                    (uid, x),
                    uid,
                );
            }
            Ok(())
        },
        Err(e) => Err(e),
    }
}

/// Creates one admin user with the given credentials when, and only
/// when, the user table is empty; the insert is conflict-free, so
/// concurrent instances racing here end with exactly one surviving
/// admin row. Returns whether this call created it.
pub fn bootstrap_admin_if_empty(db: &mut UserDb, email: &EMail, password: &Password) -> (r: Result<
    bool,
    AuthError,
>)
    requires
        old(db)@.wf(),
    ensures
        final(db)@.wf(),
        old(db)@.users.len() > 0 ==> r == Ok::<bool, AuthError>(false) && final(db)@ == old(db)@,
        old(db)@.users.len() == 0 ==> match r {
            Ok(created) => created && final(db)@.users.len() == 1 && (final(db)@.user_by_email(
                email@,
            ) matches Some(row) && row.1.name@ == "Admin"@ && argon2_check(
                password@,
                row.1.password_hash@,
            ) == Some(true)) && final(db)@ == old(db)@.add_user(
                final(db)@.users[0].0,
                final(db)@.users[0].1,
            ),
            Err(e) => e is StorageError && final(db)@ == old(db)@,
        },
{
    if db.count_user() > 0 {
        return Ok(false);
    }
    let hash = match password.hash() {
        Ok(h) => h,
        Err(e) => {
            return Err(e);
        },
    };
    let id = new_token();
    let admin_name: String = "Admin".to_owned();
    let email_s = email.as_string().clone();
    let rec = UserRecord { name: admin_name, email: email_s, password_hash: hash };
    let ghost m0 = db@;
    match db.insert_user(id, rec) {
        Ok(()) => {
            proof {
                assert(final(db)@.users =~= m0.users.push((id, rec)));
                assert(final(db)@.users[0] == (id, rec));
                crate::db::lemma_uwe_first(final(db)@.users, email@);
            }
            Ok(true)
        },
        Err(e) => Err(e),
    }
}

/// Resolves a session to its user: the common "who is making this
/// request" step. A token that no longer names a session, an anonymous
/// session, and a session whose user row is gone are all the same
/// `InvalidSession`, as none of them is an authenticated context.
pub fn get_user_from_session(db: &UserDb, store: &mut SessionStore, sid: u128) -> (r: Result<
    User,
    AuthError,
>)
    requires
        old(store)@.wf(),
    ensures
        final(store)@.wf(),
        final(store)@ == old(store)@.refresh(sid),
        match r {
            Ok(u) => old(store)@.user_of(sid) == Some(u.id) && (db@.user(u.id) matches Some(rec)
                && rec.name@ == u.name@ && rec.email@ == u.email@),
            Err(e) => e is InvalidSession && (old(store)@.user_of(sid) is None || db@.user(
                old(store)@.user_of(sid).unwrap(),
            ) is None),
        },
{
    let uid = match store.resolve(sid) {
        Some(uid) => uid,
        None => {
            return Err(AuthError::InvalidSession);
        },
    };
    match db.get_user_by_id(uid) {
        Some(u) => Ok(u),
        None => Err(AuthError::InvalidSession),
    }
}

/// Applies a partial profile update to the session's user and returns
/// the updated user. An email already carried by another user surfaces
/// as the storage conflict the unique constraint would raise.
pub fn update_current_user(
    db: &mut UserDb,
    store: &mut SessionStore,
    sid: u128,
    update: UserUpdate,
) -> (r: Result<User, AuthError>)
    requires
        old(db)@.wf(),
        old(store)@.wf(),
    ensures
        final(db)@.wf(),
        final(store)@.wf(),
        final(store)@ == old(store)@.refresh(sid),
        old(store)@.user_of(sid) is None ==> (r matches Err(e) && e is InvalidSession) && final(db)@ == old(db)@,
        old(store)@.user_of(sid) matches Some(uid) && old(db)@.user(uid) is Some && (match
            update.email {
            Some(e2) => (old(db)@.user_by_email(e2@) matches Some(p) ==> p.0 == uid),
            None => true,
        }) ==> r is Ok,
        r matches Err(e) && e is InvalidSession ==> (old(store)@.user_of(sid) is None || old(
            db,
        )@.user(old(store)@.user_of(sid).unwrap()) is None),
        match r {
            Ok(u) => ({
                &&& old(store)@.user_of(sid) == Some(u.id)
                &&& old(db)@.user(u.id) is Some
                &&& final(db)@.user(u.id) matches Some(rec2) && rec2.name@ == u.name@
                    && rec2.email@ == u.email@ && rec2.password_hash@ == old(db)@.user(
                    u.id,
                ).unwrap().password_hash@
                &&& u.name@ == (match update.name {
                    Some(n) => n@,
                    None => old(db)@.user(u.id).unwrap().name@,
                })
                &&& u.email@ == (match update.email {
                    Some(e) => e@,
                    None => old(db)@.user(u.id).unwrap().email@,
                })
                &&& final(db)@ == old(db)@.replace_user(u.id, final(db)@.user(u.id).unwrap())
            }),
            Err(e) => (e is InvalidSession || e is StorageError) && final(db)@ == old(db)@,
        },
{
    let uid = match store.resolve(sid) {
        Some(uid) => uid,
        None => {
            return Err(AuthError::InvalidSession);
        },
    };
    let (old_name, old_email, old_hash) = match db.get_record_fields(uid) {
        Some(fields) => fields,
        None => {
            return Err(AuthError::InvalidSession);
        },
    };
    let name_s: String = match update.name {
        Some(n) => n.into_inner(),
        None => old_name,
    };
    let email_s: String = match update.email {
        Some(e) => e.into_inner(),
        None => old_email,
    };
    let rec = UserRecord {
        name: name_s.clone(),
        email: email_s.clone(),
        password_hash: old_hash,
    };
    proof {
        if update.email is None {
            crate::db::lemma_own_email_maps_to_self(db@, uid);
        }
    }
    match db.replace_user(uid, rec) {
        Ok(()) => Ok(User { id: uid, name: name_s, email: EMail::from_stored(email_s) }),
        Err(e) => Err(e),
    }
}

} // verus!
