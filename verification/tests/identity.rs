//! Identity upserts and bearer authentication.

use pixel_collector_api::errors::ErrorKind;
use pixel_collector_api::jwt::{sign_at, Service};
use pixel_collector_api::user::{GoogleAccessToken, GoogleUserInfo, User, UserStore};

const SECRET: &str = "unit-test-signing-secret";

fn profile(id: &str, email: &str) -> GoogleUserInfo {
    GoogleUserInfo {
        id: id.to_owned(),
        email: email.to_owned(),
        verified_email: true,
        name: "Ada".to_owned(),
        given_name: "Ada".to_owned(),
        family_name: "L".to_owned(),
        picture: String::new(),
    }
}

fn tokens(access: &str) -> GoogleAccessToken {
    GoogleAccessToken {
        access_token: access.to_owned(),
        expires_in: 3600,
        token_type: "Bearer".to_owned(),
        scope: "openid".to_owned(),
        refresh_token: "refresh-1".to_owned(),
    }
}

#[test]
fn create_or_update_is_idempotent_on_the_provider_id() {
    let mut store = UserStore::new();
    let first = User::create_or_update_google(
        &mut store,
        profile("g-123", "first@example.test"),
        tokens("t1"),
        1000,
    )
    .unwrap();
    assert_eq!(first.auth.token_version, 0);
    assert_eq!(first.id.len(), 20);
    assert_eq!(store.items.len(), 1);

    let second = User::create_or_update_google(
        &mut store,
        profile("g-123", "second@example.test"),
        tokens("t2"),
        2000,
    )
    .unwrap();
    // Exactly one record, reflecting the second call's payload.
    assert_eq!(store.items.len(), 1);
    assert_eq!(second.id, first.id);
    assert_eq!(second.auth.google.metadata.email, "second@example.test");
    assert_eq!(second.auth.google.tokens.access_token, "t2");
    // Profile updates never touch the token version.
    assert_eq!(second.auth.token_version, first.auth.token_version);

    // A different provider user id makes a second identity.
    User::create_or_update_google(&mut store, profile("g-456", "x@example.test"), tokens("t3"), 3000)
        .unwrap();
    assert_eq!(store.items.len(), 2);
}

#[test]
fn refresh_replaces_tokens_but_keeps_the_refresh_token() {
    let mut store = UserStore::new();
    let user = User::create_or_update_google(&mut store, profile("g-1", "a@b.test"), tokens("t1"), 10)
        .unwrap();
    let refreshed = pixel_collector_api::user::GoogleRefreshToken {
        access_token: "t-new".to_owned(),
        expires_in: 1800,
        token_type: "Bearer".to_owned(),
        scope: "openid".to_owned(),
    };
    let updated = user.refresh_google_tokens(&mut store, refreshed, 20).unwrap();
    assert_eq!(updated.auth.google.tokens.access_token, "t-new");
    assert_eq!(updated.auth.google.tokens.expires_in, 1800);
    // The stored refresh token survives the refresh.
    assert_eq!(updated.auth.google.tokens.refresh_token, "refresh-1");
    // The profile is untouched.
    assert_eq!(updated.auth.google.metadata.email, "a@b.test");
}

#[test]
fn authenticate_accepts_a_fresh_bearer_token() {
    let mut store = UserStore::new();
    let user = User::create_or_update_google(&mut store, profile("g-1", "a@b.test"), tokens("t"), 10)
        .unwrap();
    let now: i64 = 1700000000;
    let token = sign_at(&user.id, user.auth.token_version, user.service, SECRET, now).unwrap();
    let header = format!("Bearer {}", token);
    let found = User::authenticate(&store, Some(&header), SECRET, now + 1).unwrap();
    assert_eq!(found.id, user.id);
}

#[test]
fn authenticate_rejects_a_stale_token_version() {
    let mut store = UserStore::new();
    let user = User::create_or_update_google(&mut store, profile("g-1", "a@b.test"), tokens("t"), 10)
        .unwrap();
    let now: i64 = 1700000000;
    // A token carrying a version the identity no longer has.
    let stale = sign_at(&user.id, user.auth.token_version + 1, user.service, SECRET, now).unwrap();
    let header = format!("Bearer {}", stale);
    let err = User::authenticate(&store, Some(&header), SECRET, now + 1).unwrap_err();
    assert_eq!(err.kind, ErrorKind::Unauthorized);
}

#[test]
fn authenticate_rejects_missing_header_and_token() {
    let store = UserStore::new();
    let err = User::authenticate(&store, None, SECRET, 0).unwrap_err();
    assert_eq!(err.kind, ErrorKind::Unauthorized);
    let err = User::authenticate(&store, Some("Bearer"), SECRET, 0).unwrap_err();
    assert_eq!(err.kind, ErrorKind::Unauthorized);
}

#[test]
fn authenticate_rejects_an_unknown_subject() {
    let store = UserStore::new();
    let now: i64 = 1700000000;
    let token = sign_at("GHOSTGHOSTGHOSTGHOST", 0, Service::LOCALHOST, SECRET, now).unwrap();
    let header = format!("Bearer {}", token);
    let err = User::authenticate(&store, Some(&header), SECRET, now + 1).unwrap_err();
    assert_eq!(err.kind, ErrorKind::NotFound);
}

#[test]
fn sign_token_then_authenticate_round_trip() {
    let mut store = UserStore::new();
    let user = User::create_or_update_google(&mut store, profile("g-9", "z@b.test"), tokens("t"), 10)
        .unwrap();
    let token = user.sign_token(SECRET).unwrap();
    let claims = User::verify_token(&token, SECRET).unwrap();
    assert_eq!(claims.user_id, user.id);
    assert_eq!(claims.token_version, user.auth.token_version);
}
