//! End-to-end flows over the in-memory stores: hashing, registration,
//! login, logout, password reset and admin bootstrap.

use hausmeister::auth::{
    bootstrap_admin_if_empty, get_user_from_session, login, logout, perform_password_reset,
    register, request_password_reset, update_current_user, UserUpdate,
};
use hausmeister::db::UserDb;
use hausmeister::email::EMail;
use hausmeister::errors::AuthError;
use hausmeister::password::Password;
use hausmeister::store::SessionStore;

fn registered_db() -> UserDb {
    let mut db = UserDb::new();
    register(&mut db, "Test User", "test@example.com", "password123").unwrap();
    db
}

#[test]
fn hash_verifies_against_its_password() {
    let p: Password = "password123".parse().unwrap();
    let h = p.hash().unwrap();
    assert_eq!(p.match_hash(&h).unwrap(), true);
    let other: Password = "different-password".parse().unwrap();
    assert_eq!(other.match_hash(&h).unwrap(), false);
    assert!(matches!(p.match_hash("not-a-phc-string"), Err(AuthError::HashFormatError)));
}

#[test]
fn register_creates_exactly_one_user() {
    let mut db = UserDb::new();
    let user = register(&mut db, "Test User", "test@example.com", "password123").unwrap();
    assert_eq!(db.count_user(), 1);
    assert_eq!(user.name, "Test User");
    assert_eq!(user.email.as_str(), "test@example.com");
    let again = register(&mut db, "Test User", "test@example.com", "password123");
    assert_eq!(again.unwrap_err(), AuthError::StorageError);
    assert_eq!(db.count_user(), 1);
}

#[test]
fn register_rejects_invalid_fields() {
    let mut db = UserDb::new();
    let r = register(&mut db, "", "not-an-email", "short");
    assert_eq!(
        r.unwrap_err(),
        AuthError::ValidationError(hausmeister::errors::FieldViolations {
            name: true,
            email: true,
            password: true,
        })
    );
    assert_eq!(db.count_user(), 0);
}

#[test]
fn login_succeeds_with_right_password() {
    let db = registered_db();
    let mut store = SessionStore::new();
    let email: EMail = "test@example.com".parse().unwrap();
    let password: Password = "password123".parse().unwrap();
    let (user, sid) = login(&db, &mut store, &email, &password).unwrap();
    assert_eq!(user.email.as_str(), "test@example.com");
    assert_eq!(store.resolve(sid), Some(user.id));
}

#[test]
fn login_rejects_wrong_password() {
    let db = registered_db();
    let mut store = SessionStore::new();
    let email: EMail = "test@example.com".parse().unwrap();
    let wrong: Password = "wrong-password".parse().unwrap();
    assert_eq!(
        login(&db, &mut store, &email, &wrong).unwrap_err(),
        AuthError::InvalidCredentials
    );
}

#[test]
fn login_rejects_unknown_user() {
    let db = registered_db();
    let mut store = SessionStore::new();
    let email: EMail = "nobody@x.com".parse().unwrap();
    let password: Password = "password123".parse().unwrap();
    assert_eq!(
        login(&db, &mut store, &email, &password).unwrap_err(),
        AuthError::UserNotFound
    );
}

#[test]
fn second_login_supersedes_first_session() {
    let db = registered_db();
    let mut store = SessionStore::new();
    let email: EMail = "test@example.com".parse().unwrap();
    let password: Password = "password123".parse().unwrap();
    let (_, sid1) = login(&db, &mut store, &email, &password).unwrap();
    let (user, sid2) = login(&db, &mut store, &email, &password).unwrap();
    assert_ne!(sid1, sid2);
    assert_eq!(store.resolve(sid1), None);
    assert_eq!(store.resolve(sid2), Some(user.id));
}

#[test]
fn logout_invalidates_and_is_idempotent() {
    let db = registered_db();
    let mut store = SessionStore::new();
    let email: EMail = "test@example.com".parse().unwrap();
    let password: Password = "password123".parse().unwrap();
    let (user, sid) = login(&db, &mut store, &email, &password).unwrap();
    assert_eq!(store.resolve(sid), Some(user.id));
    logout(&mut store, sid);
    assert_eq!(store.resolve(sid), None);
    logout(&mut store, sid);
    assert_eq!(store.resolve(sid), None);
}

#[test]
fn session_lookup_returns_the_user() {
    let db = registered_db();
    let mut store = SessionStore::new();
    let email: EMail = "test@example.com".parse().unwrap();
    let password: Password = "password123".parse().unwrap();
    let (user, sid) = login(&db, &mut store, &email, &password).unwrap();
    let found = get_user_from_session(&db, &mut store, sid).unwrap();
    assert_eq!(found, user);
    assert_eq!(
        get_user_from_session(&db, &mut store, sid ^ 1).unwrap_err(),
        AuthError::InvalidSession
    );
}

#[test]
fn profile_update_changes_only_given_fields() {
    let mut db = registered_db();
    let mut store = SessionStore::new();
    let email: EMail = "test@example.com".parse().unwrap();
    let password: Password = "password123".parse().unwrap();
    let (_, sid) = login(&db, &mut store, &email, &password).unwrap();
    let updated = update_current_user(
        &mut db,
        &mut store,
        sid,
        UserUpdate { name: Some("New Name".parse().unwrap()), email: None },
    )
    .unwrap();
    assert_eq!(updated.name, "New Name");
    assert_eq!(updated.email.as_str(), "test@example.com");
}

#[test]
fn reset_request_supersedes_prior_token() {
    let mut db = registered_db();
    let email: EMail = "test@example.com".parse().unwrap();
    let t1 = request_password_reset(&mut db, &email).unwrap();
    let t2 = request_password_reset(&mut db, &email).unwrap();
    assert!(!db.reset_token_is_valid(t1));
    assert!(db.reset_token_is_valid(t2));
    let new_password: Password = "fresh-password".parse().unwrap();
    assert_eq!(
        perform_password_reset(&mut db, t1, &new_password).unwrap_err(),
        AuthError::TokenNotFound
    );
}

#[test]
fn reset_token_works_exactly_once() {
    let mut db = registered_db();
    let email: EMail = "test@example.com".parse().unwrap();
    let token = request_password_reset(&mut db, &email).unwrap();
    let new_password: Password = "fresh-password".parse().unwrap();
    perform_password_reset(&mut db, token, &new_password).unwrap();
    assert_eq!(
        perform_password_reset(&mut db, token, &new_password).unwrap_err(),
        AuthError::TokenNotFound
    );
    let mut store = SessionStore::new();
    let old_password: Password = "password123".parse().unwrap();
    assert_eq!(
        login(&db, &mut store, &email, &old_password).unwrap_err(),
        AuthError::InvalidCredentials
    );
    login(&db, &mut store, &email, &new_password).unwrap();
}

#[test]
fn reset_request_for_unknown_user_fails() {
    let mut db = UserDb::new();
    let email: EMail = "nobody@example.com".parse().unwrap();
    assert_eq!(
        request_password_reset(&mut db, &email).unwrap_err(),
        AuthError::UserNotFound
    );
}

#[test]
fn bootstrap_creates_one_admin_only_when_empty() {
    let mut db = UserDb::new();
    let email: EMail = "admin@example.com".parse().unwrap();
    let password: Password = "admin-password".parse().unwrap();
    assert_eq!(bootstrap_admin_if_empty(&mut db, &email, &password).unwrap(), true);
    assert_eq!(db.count_user(), 1);
    assert_eq!(bootstrap_admin_if_empty(&mut db, &email, &password).unwrap(), false);
    assert_eq!(bootstrap_admin_if_empty(&mut db, &email, &password).unwrap(), false);
    assert_eq!(db.count_user(), 1);
    let admin = db.get_user_by_email(&email).unwrap();
    assert_eq!(admin.name, "Admin");
    let mut store = SessionStore::new();
    login(&db, &mut store, &email, &password).unwrap();
}
