//! Link states: single use and store-enforced expiry.

use pixel_collector_api::errors::ErrorKind;
use pixel_collector_api::oauth_link_state::{
    LinkState, LinkStateStore, Provider, LINK_STATE_TTL_MILLIS,
};

#[test]
fn consume_succeeds_exactly_once() {
    let mut store = LinkStateStore::new();
    let state = LinkState::default();
    let id = state.id.clone();
    let created_at = state.created_at;
    store.create(state).expect("creating a fresh state must succeed");

    let consumed = store.consume(&id, created_at + 1).expect("first consume must succeed");
    assert_eq!(consumed.id, id);

    // Immediately after the first success, the same id must fail.
    let err = store.consume(&id, created_at + 2).unwrap_err();
    assert_eq!(err.kind, ErrorKind::NotFound);
}

#[test]
fn consume_fails_after_the_ttl() {
    let mut store = LinkStateStore::new();
    let state = LinkState::default();
    let id = state.id.clone();
    let created_at = state.created_at;
    store.create(state).unwrap();

    let err = store.consume(&id, created_at + LINK_STATE_TTL_MILLIS).unwrap_err();
    assert_eq!(err.kind, ErrorKind::NotFound);

    // It stays invisible at every later time.
    let err = store.consume(&id, created_at + LINK_STATE_TTL_MILLIS + 100_000).unwrap_err();
    assert_eq!(err.kind, ErrorKind::NotFound);
}

#[test]
fn consume_just_inside_the_ttl_succeeds() {
    let mut store = LinkStateStore::new();
    let state = LinkState::default();
    let id = state.id.clone();
    let created_at = state.created_at;
    store.create(state).unwrap();
    assert!(store.consume(&id, created_at + LINK_STATE_TTL_MILLIS - 1).is_ok());
}

#[test]
fn duplicate_ids_are_rejected() {
    let mut store = LinkStateStore::new();
    let state = LinkState::default();
    let copy = state.clone();
    store.create(state).unwrap();
    let err = store.create(copy).unwrap_err();
    assert_eq!(err.kind, ErrorKind::Conflict);
}

#[test]
fn unknown_state_fails() {
    let mut store = LinkStateStore::new();
    let err = store.consume("NEVERISSUEDNEVERISSU", 0).unwrap_err();
    assert_eq!(err.kind, ErrorKind::NotFound);
}

#[test]
fn provider_name_on_the_wire() {
    assert_eq!(Provider::GOOGLE.to_string(), "GOOGLE");
}

#[test]
fn fresh_state_shape() {
    let state = LinkState::new("https://example.test/cb".to_owned());
    assert_eq!(state.id.len(), 20);
    assert!(state.id.chars().all(|c| c.is_ascii_uppercase()));
    assert_eq!(state.redirect, "https://example.test/cb");
    assert_eq!(state.created_at, state.updated_at);
}

#[test]
fn generated_ids_are_distinct() {
    let a = pixel_collector_api::record::generate_nanoid();
    let b = pixel_collector_api::record::generate_nanoid();
    assert_eq!(a.len(), 20);
    assert_ne!(a, b);
}
