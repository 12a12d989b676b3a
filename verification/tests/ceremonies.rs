//! WebAuthn ceremony bookkeeping: slot overwriting, consumption, and
//! rejection of responses that do not verify.

use hausmeister::auth::{login, register};
use hausmeister::db::UserDb;
use hausmeister::email::EMail;
use hausmeister::errors::AuthError;
use hausmeister::password::Password;
use hausmeister::store::{CeremonyKind, SessionStore};
use hausmeister::webauthn::{
    finish_authentication, finish_registration, start_authentication, start_registration,
};
use webauthn_rs::prelude::{PublicKeyCredential, RegisterPublicKeyCredential, Url};
use webauthn_rs::{Webauthn, WebauthnBuilder};

fn test_webauthn() -> Webauthn {
    let rp_origin = Url::parse("http://localhost:3779").unwrap();
    WebauthnBuilder::new("localhost", &rp_origin)
        .unwrap()
        .rp_name("test-rp")
        .build()
        .unwrap()
}

fn logged_in() -> (UserDb, SessionStore, hausmeister::db::User, u128) {
    let mut db = UserDb::new();
    register(&mut db, "Test User", "test@example.com", "password123").unwrap();
    let mut store = SessionStore::new();
    let email: EMail = "test@example.com".parse().unwrap();
    let password: Password = "password123".parse().unwrap();
    let (user, sid) = login(&db, &mut store, &email, &password).unwrap();
    (db, store, user, sid)
}

fn garbage_registration_response() -> RegisterPublicKeyCredential {
    let json = "{\"id\":\"AAAA\",\"rawId\":\"AAAA\",\"response\":{\"attestationObject\":\"AAAA\",\"clientDataJSON\":\"AAAA\"},\"type\":\"public-key\"}";
    serde_json::from_str(json).unwrap()
}

fn garbage_authentication_response() -> PublicKeyCredential {
    let json = "{\"id\":\"AAAA\",\"rawId\":\"AAAA\",\"response\":{\"authenticatorData\":\"AAAA\",\"clientDataJSON\":\"AAAA\",\"signature\":\"AAAA\"},\"type\":\"public-key\"}";
    serde_json::from_str(json).unwrap()
}

#[test]
fn start_registration_fills_the_ceremony_slot() {
    let (_db, mut store, user, sid) = logged_in();
    let wa = test_webauthn();
    assert_eq!(store.ceremony_kind(sid), CeremonyKind::Empty);
    start_registration(&wa, &mut store, sid, &user).unwrap();
    assert_eq!(store.ceremony_kind(sid), CeremonyKind::Registration);
}

#[test]
fn new_ceremony_overwrites_the_old_one() {
    let (db, mut store, user, sid) = logged_in();
    let wa = test_webauthn();
    start_registration(&wa, &mut store, sid, &user).unwrap();
    assert_eq!(store.ceremony_kind(sid), CeremonyKind::Registration);

    // A user without passkeys cannot start an authentication ceremony,
    // so the registration state survives that attempt.
    let email: EMail = "test@example.com".parse().unwrap();
    assert_eq!(
        start_authentication(&wa, &db, &mut store, Some(sid), &email).unwrap_err(),
        AuthError::NoPasskeysRegistered
    );
    assert_eq!(store.ceremony_kind(sid), CeremonyKind::Registration);

    // A second registration start replaces the first ceremony's state.
    start_registration(&wa, &mut store, sid, &user).unwrap();
    assert_eq!(store.ceremony_kind(sid), CeremonyKind::Registration);
}

#[test]
fn finish_registration_consumes_state_and_rejects_garbage() {
    let (mut db, mut store, user, sid) = logged_in();
    let wa = test_webauthn();
    start_registration(&wa, &mut store, sid, &user).unwrap();
    let response = garbage_registration_response();
    assert_eq!(
        finish_registration(&wa, &mut store, &mut db, sid, &response).unwrap_err(),
        AuthError::WebauthnProtocolError
    );
    // The ceremony state was consumed even though the response failed,
    // and the session itself is untouched.
    assert_eq!(store.ceremony_kind(sid), CeremonyKind::Empty);
    assert_eq!(store.resolve(sid), Some(user.id));
    assert_eq!(
        finish_registration(&wa, &mut store, &mut db, sid, &response).unwrap_err(),
        AuthError::MissingData("$.webauthn_registration".to_owned())
    );
}

#[test]
fn finish_without_a_session_is_invalid() {
    let mut db = UserDb::new();
    let mut store = SessionStore::new();
    let wa = test_webauthn();
    let response = garbage_registration_response();
    assert_eq!(
        finish_registration(&wa, &mut store, &mut db, 7, &response).unwrap_err(),
        AuthError::InvalidSession
    );
    assert_eq!(
        finish_authentication(&wa, &db, &mut store, 7, &garbage_authentication_response())
            .unwrap_err(),
        AuthError::InvalidSession
    );
}

#[test]
fn authentication_requires_user_and_passkeys() {
    let (db, mut store, _user, sid) = logged_in();
    let wa = test_webauthn();
    let unknown: EMail = "nobody@example.com".parse().unwrap();
    assert_eq!(
        start_authentication(&wa, &db, &mut store, Some(sid), &unknown).unwrap_err(),
        AuthError::UserNotFound
    );
    let known: EMail = "test@example.com".parse().unwrap();
    assert_eq!(
        start_authentication(&wa, &db, &mut store, Some(sid), &known).unwrap_err(),
        AuthError::NoPasskeysRegistered
    );
}

#[test]
fn finish_authentication_needs_authentication_state() {
    let (db, mut store, user, sid) = logged_in();
    let wa = test_webauthn();
    start_registration(&wa, &mut store, sid, &user).unwrap();
    // The slot holds registration state: an authentication finish is
    // refused and the slot is left as it was.
    assert_eq!(
        finish_authentication(&wa, &db, &mut store, sid, &garbage_authentication_response())
            .unwrap_err(),
        AuthError::MissingData("$.webauthn_auth".to_owned())
    );
    assert_eq!(store.ceremony_kind(sid), CeremonyKind::Registration);
}
