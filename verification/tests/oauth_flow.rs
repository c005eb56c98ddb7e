//! The OAuth flow end to end, with a simulated provider.

use pixel_collector_api::errors::ErrorKind;
use pixel_collector_api::oauth::{
    begin_callback, build_oauth_link, create_login_link, finish_callback, refresh_token_form,
    token_exchange_form, user_info_query,
};
use pixel_collector_api::oauth_link_state::{LinkState, LinkStateStore};
use pixel_collector_api::user::{GoogleAccessToken, GoogleUserInfo, UserStore};

const SECRET: &str = "unit-test-signing-secret";

#[test]
fn authorization_link_carries_the_state_and_encodes_values() {
    let state = LinkState::new("http://localhost:3000/oauth/google-redirect".to_owned());
    let url = build_oauth_link("client-1", &state).unwrap();
    assert!(url.starts_with("https://accounts.google.com/o/oauth2/v2/auth?client_id=client-1&"));
    assert!(url.contains(&format!("state={}&", state.id)));
    // The redirect and the scopes ride percent-encoded.
    assert!(url.contains("redirect_uri=http%3A%2F%2Flocalhost%3A3000%2Foauth%2Fgoogle-redirect"));
    assert!(url.contains("scope=openid%20https%3A%2F%2Fwww.googleapis.com"));
    assert!(url.ends_with("&include_granted_scopes=true"));
}

#[test]
fn oauth_scenario_callback_succeeds_once() {
    let mut links = LinkStateStore::new();
    let mut users = UserStore::new();

    // The client asks for a login link.
    let link = create_login_link(&mut links, "client-1").unwrap();
    assert_eq!(links.items.len(), 1);
    let state_id = links.items[0].id.clone();
    let created_at = links.items[0].created_at;
    assert!(link.google.contains(&format!("state={}", state_id)));

    // The provider redirects back with the state: the CSRF check passes once.
    let consumed = begin_callback(&mut links, &state_id, created_at + 5).unwrap();
    assert_eq!(consumed.id, state_id);

    // The app exchanges the code and fetches the profile (simulated here),
    // then the flow resolves the identity and issues a session.
    let info = GoogleUserInfo {
        id: "g-777".to_owned(),
        email: "who@example.test".to_owned(),
        verified_email: true,
        name: "Who".to_owned(),
        given_name: "W".to_owned(),
        family_name: "Ho".to_owned(),
        picture: String::new(),
    };
    let tokens = GoogleAccessToken {
        access_token: "at".to_owned(),
        expires_in: 3600,
        token_type: "Bearer".to_owned(),
        scope: "openid".to_owned(),
        refresh_token: "rt".to_owned(),
    };
    let (user, token) =
        finish_callback(&mut users, info, tokens, SECRET, created_at + 6).unwrap();
    assert_eq!(users.items.len(), 1);
    assert_eq!(user.auth.google.metadata.id, "g-777");
    let claims = pixel_collector_api::jwt::verify_at(&token, SECRET, created_at / 1000 + 7)
        .expect("the issued session token must verify");
    assert_eq!(claims.user_id, user.id);

    // Replaying the same state fails the whole callback.
    let err = begin_callback(&mut links, &state_id, created_at + 8).unwrap_err();
    assert_eq!(err.kind, ErrorKind::Unauthorized);
}

#[test]
fn form_bodies_have_the_documented_shape() {
    let form = token_exchange_form("cid", "cs", "the-code", "https://cb.test");
    let expected = [
        ("client_id", "cid"),
        ("client_secret", "cs"),
        ("redirect_uri", "https://cb.test"),
        ("grant_type", "authorization_code"),
        ("code", "the-code"),
    ];
    assert_eq!(form.len(), expected.len());
    for (pair, want) in form.iter().zip(expected.iter()) {
        assert_eq!(pair.0, want.0);
        assert_eq!(pair.1, want.1);
    }

    let form = refresh_token_form("cid", "cs", "rt");
    assert_eq!(form.len(), 4);
    assert_eq!(form[2].0, "refresh_token");
    assert_eq!(form[3].1, "refresh_token");

    let query = user_info_query("at-1");
    assert_eq!(query.len(), 2);
    assert_eq!(query[0].0, "alt");
    assert_eq!(query[0].1, "json");
    assert_eq!(query[1].1, "at-1");
}
