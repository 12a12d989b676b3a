//! The WebAuthn ceremony manager.
//!
//! The cryptographic protocol steps are done by the `webauthn-rs` crate;
//! its challenge and state values are opaque here and are carried through
//! the session store between the start and finish calls of a ceremony.
//! What this module verifies is the bookkeeping around them: ceremony
//! state is bound to the session, overwritten by a new start, consumed by
//! every finish, and the identity confirmed by an authentication comes
//! from the server-held state, never from client input.

use vstd::prelude::*;

use webauthn_rs::prelude::{
    CreationChallengeResponse, Passkey, PasskeyAuthentication, PasskeyRegistration,
    PublicKeyCredential, RegisterPublicKeyCredential, RequestChallengeResponse,
};
use webauthn_rs::Webauthn;

use crate::db::{User, UserDb};
use crate::email::EMail;
use crate::errors::AuthError;
use crate::store::{lemma_restore_ceremony, SessionStore};

verus! {

#[verifier::external_type_specification]
#[verifier::external_body]
pub struct ExWebauthn(Webauthn);

#[verifier::external_type_specification]
#[verifier::external_body]
pub struct ExPasskey(Passkey);

#[verifier::external_type_specification]
#[verifier::external_body]
pub struct ExPasskeyRegistration(PasskeyRegistration);

#[verifier::external_type_specification]
#[verifier::external_body]
pub struct ExPasskeyAuthentication(PasskeyAuthentication);

#[verifier::external_type_specification]
#[verifier::external_body]
pub struct ExCreationChallengeResponse(CreationChallengeResponse);

#[verifier::external_type_specification]
#[verifier::external_body]
pub struct ExRequestChallengeResponse(RequestChallengeResponse);

#[verifier::external_type_specification]
#[verifier::external_body]
pub struct ExRegisterPublicKeyCredential(RegisterPublicKeyCredential);

#[verifier::external_type_specification]
#[verifier::external_body]
pub struct ExPublicKeyCredential(PublicKeyCredential);

/// Relies on the derived `Clone` of `webauthn_rs::prelude::Passkey`: it
/// copies the credential record.
pub assume_specification[ <Passkey as Clone>::clone ](p: &Passkey) -> (r: Passkey)
    ensures
        r == *p,
;

/// The passkeys owned by `uid` among the stored `(owner, key)` pairs,
/// in storage order.
pub open spec fn passkeys_of(s: Seq<(u128, Passkey)>, uid: u128) -> Seq<Passkey>
    decreases s.len(),
{
    if s.len() == 0 {
        Seq::empty()
    } else if s[0].0 == uid {
        seq![s[0].1] + passkeys_of(s.drop_first(), uid)
    } else {
        passkeys_of(s.drop_first(), uid)
    }
}

/// Appending a pair appends its key to its owner's passkeys and leaves
/// every other owner's untouched.
pub proof fn lemma_passkeys_push(s: Seq<(u128, Passkey)>, p: (u128, Passkey), uid: u128)
    ensures
        passkeys_of(s.push(p), uid) == if p.0 == uid {
            passkeys_of(s, uid).push(p.1)
        } else {
            passkeys_of(s, uid)
        },
    decreases s.len(),
{
    if s.len() == 0 {
        assert(s.push(p).drop_first() =~= Seq::<(u128, Passkey)>::empty());
        if p.0 == uid {
            assert(seq![p.1] + passkeys_of(s.push(p).drop_first(), uid) =~= passkeys_of(
                s,
                uid,
            ).push(p.1));
        }
    } else {
        assert(s.push(p).drop_first() =~= s.drop_first().push(p));
        lemma_passkeys_push(s.drop_first(), p, uid);
        if s[0].0 == uid && p.0 == uid {
            assert(seq![s[0].1] + passkeys_of(s.drop_first(), uid).push(p.1) =~= (seq![s[0].1]
                + passkeys_of(s.drop_first(), uid)).push(p.1));
        }
    }
}

/// The server-held state of an authentication ceremony: the opaque
/// challenge state and the user it was started for. The user id is
/// established at start time from the email lookup and is the only
/// identity trusted at finish time.
pub struct AuthenticationState {
    /// The user whose passkeys the challenge was generated against.
    pub user_id: u128,
    /// The challenge state the protocol library needs at finish time.
    pub state: PasskeyAuthentication,
}

/// The ceremony slot of a session: empty, or holding the state of the
/// one ceremony in flight. A single tagged slot per session means a
/// finish call can never be fed state of the wrong ceremony kind.
pub enum CeremonyState {
    /// No ceremony in flight.
    Empty,
    /// A registration ceremony awaiting the client's response.
    Registration(PasskeyRegistration),
    /// An authentication ceremony awaiting the client's response.
    Authentication(AuthenticationState),
}

/// Relies on `Webauthn::start_passkey_registration`: it draws a fresh
/// random challenge, so nothing is promised of the pair it returns.
#[verifier::external_body]
fn wa_start_registration(wa: &Webauthn, user_id: u128, name: &str) -> (r: Result<
    (CreationChallengeResponse, PasskeyRegistration),
    AuthError,
>)
    ensures
        r matches Err(e) ==> e is WebauthnProtocolError,
{
    match wa.start_passkey_registration(uuid::Uuid::from_u128(user_id), name, name, None) {
        Ok(pair) => Ok(pair),
        Err(_) => Err(AuthError::WebauthnProtocolError),
    }
}

/// Relies on `Webauthn::finish_passkey_registration`: it checks the
/// client's response against the stored challenge state and yields the
/// passkey only when the response verifies.
#[verifier::external_body]
fn wa_finish_registration(
    wa: &Webauthn,
    response: &RegisterPublicKeyCredential,
    state: &PasskeyRegistration,
) -> (r: Result<Passkey, AuthError>)
    ensures
        r matches Err(e) ==> e is WebauthnProtocolError,
{
    match wa.finish_passkey_registration(response, state) {
        Ok(pk) => Ok(pk),
        Err(_) => Err(AuthError::WebauthnProtocolError),
    }
}

/// Relies on `Webauthn::start_passkey_authentication`: it draws a fresh
/// random challenge against the given passkeys.
#[verifier::external_body]
fn wa_start_authentication(wa: &Webauthn, keys: &Vec<Passkey>) -> (r: Result<
    (RequestChallengeResponse, PasskeyAuthentication),
    AuthError,
>)
    ensures
        r matches Err(e) ==> e is WebauthnProtocolError,
{
    match wa.start_passkey_authentication(keys.as_slice()) {
        Ok(pair) => Ok(pair),
        Err(_) => Err(AuthError::WebauthnProtocolError),
    }
}

/// Relies on `Webauthn::finish_passkey_authentication`: it verifies the
/// client's response against the stored challenge state.
#[verifier::external_body]
fn wa_finish_authentication(
    wa: &Webauthn,
    response: &PublicKeyCredential,
    state: &PasskeyAuthentication,
) -> (r: Result<(), AuthError>)
    ensures
        r matches Err(e) ==> e is WebauthnProtocolError,
{
    match wa.finish_passkey_authentication(response, state) {
        Ok(_auth_result) => Ok(()),
        Err(_) => Err(AuthError::WebauthnProtocolError),
    }
}

/// Starts a passkey registration ceremony for the session's user: a
/// challenge goes back to the client and the server-side state takes
/// the session's ceremony slot, abandoning any ceremony that was in
/// flight there.
pub fn start_registration(
    wa: &Webauthn,
    store: &mut SessionStore,
    sid: u128,
    user: &User,
) -> (r: Result<CreationChallengeResponse, AuthError>)
    requires
        old(store)@.wf(),
    ensures
        final(store)@.wf(),
        old(store)@.session(sid) is None ==> (r matches Err(e) && e is InvalidSession) && final(store)@ == old(store)@,
        r is Ok ==> old(store)@.session(sid) is Some && (final(store)@.ceremony_of(sid)
            is Registration) && final(store)@ == old(store)@.with_ceremony(
            sid,
            final(store)@.ceremony_of(sid),
        ),
        r matches Err(e) ==> (e is InvalidSession || e is WebauthnProtocolError) && final(store)@
            == old(store)@,
{
    let ghost m0 = store@;
    if !store.has_session(sid) {
        return Err(AuthError::InvalidSession);
    }
    let (challenge, state) = match wa_start_registration(wa, user.id, user.email.as_str()) {
        Ok(pair) => pair,
        Err(e) => {
            return Err(e);
        },
    };
    match store.set_ceremony(sid, CeremonyState::Registration(state)) {
        Ok(_prior) => Ok(challenge),
        Err(e) => Err(e),
    }
}

/// Finishes a passkey registration ceremony: the slot must hold
/// registration state, which is consumed whatever the outcome; when
/// the client's response verifies, the new passkey is persisted for
/// the session's user.
pub fn finish_registration(
    wa: &Webauthn,
    store: &mut SessionStore,
    db: &mut UserDb,
    sid: u128,
    response: &RegisterPublicKeyCredential,
) -> (r: Result<(), AuthError>)
    requires
        old(store)@.wf(),
        old(db)@.wf(),
    ensures
        final(store)@.wf(),
        final(db)@.wf(),
        old(store)@.session(sid) is None ==> (r matches Err(e) && e is InvalidSession) && final(store)@ == old(store)@ && final(db)@ == old(db)@,
        r matches Err(e) && e is InvalidSession ==> old(store)@.session(sid) is None,
        old(store)@.session(sid) is Some && !(old(store)@.ceremony_of(sid) is Registration) ==> (
        r matches Err(e) && e matches AuthError::MissingData(p) && p@
            == "$.webauthn_registration"@) && final(db)@ == old(db)@ && final(store)@.sessions
            == old(store)@.sessions && final(store)@.cache == old(store)@.cache && (forall|
            k: u128,
        |
            final(store)@.ceremony_of(k) == old(store)@.ceremony_of(k)),
        r matches Err(e) && e is MissingData ==> old(store)@.session(sid) is Some && !(old(store)@.ceremony_of(sid) is Registration),
        old(store)@.ceremony_of(sid) is Registration ==> final(store)@ == old(store)@.without_ceremony(sid).refresh(sid) && final(store)@.ceremony_of(sid) is Empty,
        old(store)@.ceremony_of(sid) is Registration && old(store)@.user_of(sid) is None ==> (
        r matches Err(e) && e is NotLoggedIn),
        r matches Err(e) && e is NotLoggedIn ==> old(store)@.ceremony_of(sid) is Registration
            && old(store)@.user_of(sid) is None,
        old(store)@.ceremony_of(sid) is Registration && (old(store)@.user_of(sid) matches Some(
            uid,
        ) && old(db)@.user(uid) is Some) ==> (r is Ok || (r matches Err(e) && e
            is WebauthnProtocolError)),
        old(store)@.ceremony_of(sid) is Registration && (old(store)@.user_of(sid) matches Some(
            uid,
        ) && old(db)@.user(uid) is None) ==> (r matches Err(e) && (e is WebauthnProtocolError
            || e is UserNotFound)),
        r is Ok ==> (old(store)@.ceremony_of(sid) is Registration) && (old(store)@.user_of(sid)
            matches Some(uid) && final(db)@ == old(db)@.add_passkey(
            uid,
            final(db)@.user_passkeys(uid).last(),
        ) && final(db)@.user_passkeys(uid).len() == old(db)@.user_passkeys(uid).len() + 1),
        r matches Err(e) ==> final(db)@ == old(db)@ && (e is InvalidSession || e is MissingData
            || e is NotLoggedIn || e is WebauthnProtocolError || e is UserNotFound),
{
    let ghost m0 = store@;
    let state = match store.take_ceremony(sid) {
        Ok(CeremonyState::Registration(state)) => state,
        Ok(other) => {
            let ghost oc = other;
            match store.set_ceremony(sid, other) {
                Ok(_) => {},
                Err(_) => {},
            }
            proof {
                lemma_restore_ceremony(m0, sid, oc);
            }
            return Err(AuthError::MissingData("$.webauthn_registration".to_owned()));
        },
        Err(e) => {
            proof {
                crate::store::lemma_no_session_no_ceremony(m0, sid);
            }
            return Err(e);
        },
    };
    let uid = match store.resolve(sid) {
        Some(uid) => uid,
        None => {
            return Err(AuthError::NotLoggedIn);
        },
    };
    let passkey = match wa_finish_registration(wa, response, &state) {
        Ok(pk) => pk,
        Err(e) => {
            return Err(e);
        },
    };
    match db.add_passkey(uid, passkey) {
        Ok(()) => Ok(()),
        Err(e) => Err(e),
    }
}

/// Starts a passkey authentication ceremony for the user carrying
/// `email`: the challenge goes back to the client together with the
/// session token under which the response must be submitted, and the
/// server-side state — bound to the user id the email lookup found —
/// takes that session's ceremony slot.
pub fn start_authentication(
    wa: &Webauthn,
    db: &UserDb,
    store: &mut SessionStore,
    sid: Option<u128>,
    email: &EMail,
) -> (r: Result<(RequestChallengeResponse, u128), AuthError>)
    requires
        old(store)@.wf(),
    ensures
        final(store)@.wf(),
        db@.user_by_email(email@) is None ==> (r matches Err(e) && e is UserNotFound) && final(store)@ == old(store)@,
        db@.user_by_email(email@) matches Some(row) && db@.user_passkeys(row.0).len() == 0 ==> (
        r matches Err(e) && e is NoPasskeysRegistered) && final(store)@ == old(store)@,
        r matches Ok((_, out_sid)) ==> ({
            &&& db@.user_by_email(email@) matches Some(row) && db@.user_passkeys(row.0).len() > 0
                && (final(store)@.ceremony_of(out_sid) matches
            CeremonyState::Authentication(claim) && claim.user_id == row.0)
            &&& (sid matches Some(s) ==> out_sid == s && final(store)@ == old(store)@.with_ceremony(
                out_sid,
                final(store)@.ceremony_of(out_sid),
            ))
            &&& (sid is None ==> old(store)@.session(out_sid) is None && final(store)@ == old(store)@.insert_anonymous(out_sid).with_ceremony(
                out_sid,
                final(store)@.ceremony_of(out_sid),
            ))
        }),
        r is Err ==> final(store)@ == old(store)@,
        r matches Err(e) ==> (e is UserNotFound || e is NoPasskeysRegistered || e
            is WebauthnProtocolError || e is InvalidSession || e is StorageError),
        r matches Err(e) && e is UserNotFound ==> db@.user_by_email(email@) is None,
        r matches Err(e) && e is NoPasskeysRegistered ==> (db@.user_by_email(email@)
            matches Some(row) && db@.user_passkeys(row.0).len() == 0),
        r matches Err(e) && e is InvalidSession ==> (sid matches Some(s) && old(store)@.session(
            s,
        ) is None) && db@.user_by_email(email@) is Some,
        r matches Err(e) && e is StorageError ==> sid is None && db@.user_by_email(email@)
            is Some,
{
    let row = match db.credentials_by_email(email) {
        Some(found) => found,
        None => {
            return Err(AuthError::UserNotFound);
        },
    };
    let user_id = row.0.id;
    let keys = db.passkeys_for_user(user_id);
    if keys.len() == 0 {
        return Err(AuthError::NoPasskeysRegistered);
    }
    let (challenge, state) = match wa_start_authentication(wa, &keys) {
        Ok(pair) => pair,
        Err(e) => {
            return Err(e);
        },
    };
    let out_sid = match sid {
        Some(s) => s,
        None => {
            match store.create_anonymous_session() {
                Ok(s) => s,
                Err(e) => {
                    return Err(e);
                },
            }
        },
    };
    match store.set_ceremony(
        out_sid,
        CeremonyState::Authentication(AuthenticationState { user_id, state }),
    ) {
        Ok(_prior) => Ok((challenge, out_sid)),
        Err(e) => Err(e),
    }
}

/// Finishes a passkey authentication ceremony: the slot must hold
/// authentication state, which is consumed whatever the outcome; when
/// the client's response verifies, the user confirmed is the one the
/// server bound at start time — never one derived from client input —
/// and the session becomes that user's.
pub fn finish_authentication(
    wa: &Webauthn,
    db: &UserDb,
    store: &mut SessionStore,
    sid: u128,
    credential: &PublicKeyCredential,
) -> (r: Result<User, AuthError>)
    requires
        old(store)@.wf(),
    ensures
        final(store)@.wf(),
        old(store)@.session(sid) is None ==> (r matches Err(e) && e is InvalidSession) && final(store)@ == old(store)@,
        r matches Err(e) && e is InvalidSession ==> old(store)@.session(sid) is None,
        old(store)@.session(sid) is Some && !(old(store)@.ceremony_of(sid) is Authentication)
            ==> (r matches Err(e) && e matches AuthError::MissingData(p) && p@
            == "$.webauthn_auth"@) && final(store)@.sessions == old(store)@.sessions && final(store)@.cache == old(store)@.cache && (forall|k: u128|
            final(store)@.ceremony_of(k) == old(store)@.ceremony_of(k)),
        r matches Err(e) && e is MissingData ==> old(store)@.session(sid) is Some && !(old(store)@.ceremony_of(sid) is Authentication),
        old(store)@.ceremony_of(sid) is Authentication ==> final(store)@.ceremony_of(sid)
            is Empty,
        old(store)@.ceremony_of(sid) is Authentication && r is Err ==> final(store)@ == old(store)@.without_ceremony(sid),
        old(store)@.ceremony_of(sid) matches CeremonyState::Authentication(claim) ==> ({
            &&& db@.user(claim.user_id) is Some ==> (r is Ok || (r matches Err(e) && e
                is WebauthnProtocolError))
            &&& db@.user(claim.user_id) is None ==> (r matches Err(e) && (e
                is WebauthnProtocolError || e is UserNotFound))
        }),
        r matches Ok(u) ==> ({
            &&& old(store)@.ceremony_of(sid) matches CeremonyState::Authentication(claim)
                && claim.user_id == u.id
            &&& db@.user(u.id) matches Some(rec) && rec.name@ == u.name@ && rec.email@ == u.email@
            &&& final(store)@.user_of(sid) == Some(u.id)
            &&& final(store)@ == old(store)@.without_ceremony(sid).promote_session(sid, u.id)
        }),
        r matches Err(e) ==> (e is InvalidSession || e is MissingData || e is UserNotFound || e
            is WebauthnProtocolError),
{
    let claim = match store.take_ceremony(sid) {
        Ok(CeremonyState::Authentication(claim)) => claim,
        Ok(other) => {
            let ghost oc = other;
            match store.set_ceremony(sid, other) {
                Ok(_) => {},
                Err(_) => {},
            }
            proof {
                lemma_restore_ceremony(old(store)@, sid, oc);
            }
            return Err(AuthError::MissingData("$.webauthn_auth".to_owned()));
        },
        Err(e) => {
            proof {
                crate::store::lemma_no_session_no_ceremony(old(store)@, sid);
            }
            return Err(e);
        },
    };
    match wa_finish_authentication(wa, credential, &claim.state) {
        Ok(()) => {},
        Err(e) => {
            return Err(e);
        },
    }
    let user = match db.get_user_by_id(claim.user_id) {
        Some(u) => u,
        None => {
            return Err(AuthError::UserNotFound);
        },
    };
    match store.promote_session(sid, claim.user_id) {
        Ok(()) => {
            proof {
                let mid = old(store)@.without_ceremony(sid);
                crate::assoc::lemma_get_remove(old(store)@.ceremonies, sid, sid);
                match mid.session_of_user(claim.user_id) {
                    Some(old_sid) => {
                        crate::assoc::lemma_get_remove(mid.ceremonies, old_sid, sid);
                    },
                    None => {},
                }
            }
            Ok(user)
        },
        Err(e) => Err(e),
    }
}

} // verus!
