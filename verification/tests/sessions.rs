//! The session store on its own: round trips, upsert-by-user, and the
//! cache fast path.

use hausmeister::settings::{default_port, false_default, DbConfig};
use hausmeister::store::SessionStore;

#[test]
fn created_session_resolves_to_its_user() {
    let mut store = SessionStore::new();
    let sid = store.create_session(17).unwrap();
    assert_eq!(store.resolve(sid), Some(17));
    // A second resolve is answered from the repopulated cache.
    assert_eq!(store.resolve(sid), Some(17));
}

#[test]
fn invalidated_session_resolves_to_nothing() {
    let mut store = SessionStore::new();
    let sid = store.create_session(17).unwrap();
    store.invalidate(sid);
    assert_eq!(store.resolve(sid), None);
    // Invalidating twice is not an error.
    store.invalidate(sid);
    assert_eq!(store.resolve(sid), None);
}

#[test]
fn one_session_per_user() {
    let mut store = SessionStore::new();
    let sid1 = store.create_session(17).unwrap();
    let sid2 = store.create_session(17).unwrap();
    assert_eq!(store.resolve(sid1), None);
    assert_eq!(store.resolve(sid2), Some(17));
    let other = store.create_session(18).unwrap();
    assert_eq!(store.resolve(sid2), Some(17));
    assert_eq!(store.resolve(other), Some(18));
}

#[test]
fn explicit_tokens_conflict_on_reuse() {
    let mut store = SessionStore::new();
    store.insert_session(5, 17).unwrap();
    assert!(store.insert_session(5, 18).is_err());
    assert_eq!(store.resolve(5), Some(17));
}

#[test]
fn anonymous_sessions_have_no_user() {
    let mut store = SessionStore::new();
    let sid = store.create_anonymous_session().unwrap();
    assert!(store.has_session(sid));
    assert_eq!(store.resolve(sid), None);
    store.promote_session(sid, 17).unwrap();
    assert_eq!(store.resolve(sid), Some(17));
}

#[test]
fn configuration_defaults() {
    assert_eq!(default_port(), 3779);
    assert!(!false_default());
    let config = DbConfig::DatabaseUrl { url: "postgres://localhost/app".to_owned() };
    assert!(matches!(config, DbConfig::DatabaseUrl { .. }));
}
