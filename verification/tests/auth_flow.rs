//! Credential registration and login against the in-memory store.

use pixel_collector_api::auth::{hash_password, Auth, CredentialStore};
use pixel_collector_api::errors::ErrorKind;

#[test]
fn register_login_round_trip() {
    let mut store = CredentialStore::new();
    let mut new = Auth::new("alice".to_owned(), "pw1".to_owned());
    let registered = new.register(&mut store).expect("registration must succeed");
    assert_eq!(registered.id.len(), 20);
    assert!(registered.id.chars().all(|c| c.is_ascii_uppercase()));
    assert_eq!(registered.username, "alice");
    assert_eq!(registered.password, hash_password("pw1"));

    // The same username again: a conflict.
    let mut dup = Auth::new("alice".to_owned(), "pw2".to_owned());
    let err = dup.register(&mut store).unwrap_err();
    assert_eq!(err.kind, ErrorKind::Conflict);

    // Logging in returns the registered credential.
    let found = store.login("alice", "pw1").expect("login must succeed");
    assert_eq!(found.id, registered.id);
    assert_eq!(found.username, "alice");
    assert_eq!(found.created_at, registered.created_at);
}

#[test]
fn login_rejects_wrong_password_and_unknown_user() {
    let mut store = CredentialStore::new();
    let mut new = Auth::new("bob".to_owned(), "secret".to_owned());
    new.register(&mut store).unwrap();

    let err = store.login("bob", "wrong").unwrap_err();
    assert_eq!(err.kind, ErrorKind::Unauthorized);

    let err = store.login("nobody", "secret").unwrap_err();
    assert_eq!(err.kind, ErrorKind::NotFound);
}

#[test]
fn get_by_id_round_trips_through_the_codec() {
    let mut store = CredentialStore::new();
    let mut new = Auth::new("carol".to_owned(), "pw".to_owned());
    let registered = new.register(&mut store).unwrap();

    let fetched = store.get_by_id(&registered.id).expect("stored record must decode");
    assert_eq!(fetched.id, registered.id);
    assert_eq!(fetched.username, "carol");
    assert_eq!(fetched.password, registered.password);
    assert_eq!(fetched.created_at, registered.created_at);
    assert_eq!(fetched.updated_at, registered.updated_at);
    assert!(fetched.metadata.is_none());

    let err = store.get_by_id("MISSINGMISSINGMISSIN").unwrap_err();
    assert_eq!(err.kind, ErrorKind::NotFound);
}

#[test]
fn delete_removes_and_is_idempotent() {
    let mut store = CredentialStore::new();
    let mut new = Auth::new("dave".to_owned(), "pw".to_owned());
    let registered = new.register(&mut store).unwrap();

    store.delete(&registered.id).unwrap();
    let err = store.get_by_id(&registered.id).unwrap_err();
    assert_eq!(err.kind, ErrorKind::NotFound);
    // Deleting an absent id still succeeds.
    store.delete(&registered.id).unwrap();
}

#[test]
fn put_overwrites_by_id() {
    let mut store = CredentialStore::new();
    let mut new = Auth::new("erin".to_owned(), "pw".to_owned());
    let registered = new.register(&mut store).unwrap();

    let mut changed = registered.clone();
    changed.username = "erin2".to_owned();
    store.put(&changed).unwrap();

    let fetched = store.get_by_id(&registered.id).unwrap();
    assert_eq!(fetched.username, "erin2");
    assert!(store.query_by_username("erin").is_empty());
    assert_eq!(store.query_by_username("erin2").len(), 1);
}
