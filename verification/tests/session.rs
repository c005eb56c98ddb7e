//! Session tokens: sign, verify, tamper, expire.

use pixel_collector_api::errors::ErrorKind;
use pixel_collector_api::jwt::{
    claims_json_string, parse_claims, sign, sign_at, verify, verify_at, Claims, Service,
    SESSION_TTL_SECONDS,
};

const SECRET: &str = "unit-test-signing-secret";

#[test]
fn verify_of_sign_returns_the_claims() {
    let now: i64 = 1700000000;
    let token = sign_at("USERAAAAAAAAAAAAAAAA", 3, Service::LOCALHOST, SECRET, now).unwrap();
    let claims = verify_at(&token, SECRET, now + 10).expect("a fresh token must verify");
    assert_eq!(claims.user_id, "USERAAAAAAAAAAAAAAAA");
    assert_eq!(claims.token_version, 3);
    assert_eq!(claims.issuer, Service::LOCALHOST);
    assert_eq!(claims.iat, now);
    assert_eq!(claims.exp, now + SESSION_TTL_SECONDS);
}

#[test]
fn altering_any_byte_fails_verification() {
    let now: i64 = 1700000000;
    let token = sign_at("USERBBBBBBBBBBBBBBBB", 1, Service::LOCALHOST, SECRET, now).unwrap();
    let bytes = token.as_bytes();
    for i in 0..bytes.len() {
        let mut altered = bytes.to_vec();
        altered[i] = if altered[i] == b'A' { b'B' } else { b'A' };
        let altered = String::from_utf8(altered).unwrap();
        if altered == token {
            continue;
        }
        let err = verify_at(&altered, SECRET, now + 10).unwrap_err();
        assert_eq!(err.kind, ErrorKind::Unauthorized, "altered byte {} passed", i);
    }
}

#[test]
fn wrong_secret_fails_verification() {
    let now: i64 = 1700000000;
    let token = sign_at("USERCCCCCCCCCCCCCCCC", 0, Service::LOCALHOST, SECRET, now).unwrap();
    let err = verify_at(&token, "another-signing-secret", now + 10).unwrap_err();
    assert_eq!(err.kind, ErrorKind::Unauthorized);
}

#[test]
fn expired_token_fails_verification() {
    let now: i64 = 1700000000;
    let token = sign_at("USERDDDDDDDDDDDDDDDD", 0, Service::LOCALHOST, SECRET, now).unwrap();
    let err = verify_at(&token, SECRET, now + SESSION_TTL_SECONDS + 1).unwrap_err();
    assert_eq!(err.kind, ErrorKind::Unauthorized);
    // At the expiry instant itself the token still verifies.
    assert!(verify_at(&token, SECRET, now + SESSION_TTL_SECONDS).is_ok());
}

#[test]
fn unsafe_subject_id_is_rejected_at_signing() {
    let now: i64 = 1700000000;
    let err = sign_at("has\"quote", 0, Service::LOCALHOST, SECRET, now).unwrap_err();
    assert_eq!(err.kind, ErrorKind::BadRequest);
}

#[test]
fn clocked_sign_and_verify_round_trip() {
    let token = sign("USEREEEEEEEEEEEEEEEE", 7, Service::LOCALHOST, SECRET).unwrap();
    let claims = verify(&token, SECRET).unwrap();
    assert_eq!(claims.user_id, "USEREEEEEEEEEEEEEEEE");
    assert_eq!(claims.token_version, 7);
}

#[test]
fn our_tokens_satisfy_a_standard_jwt_verifier() {
    let now: i64 = 1700000000;
    // Far enough in the future that the standard verifier's expiry check passes.
    let token = sign("USERFFFFFFFFFFFFFFFF", 2, Service::LOCALHOST, SECRET).unwrap();
    let decoded = jsonwebtoken::decode::<serde_json::Value>(
        &token,
        &jsonwebtoken::DecodingKey::from_secret(SECRET.as_bytes()),
        &jsonwebtoken::Validation::new(jsonwebtoken::Algorithm::HS512),
    )
    .expect("a token this library signs must satisfy a standard verifier");
    assert_eq!(decoded.claims["user_id"], "USERFFFFFFFFFFFFFFFF");
    assert_eq!(decoded.claims["token_version"], 2);
    assert_eq!(decoded.claims["issuer"], "LOCALHOST");
    let _ = now;
}

#[test]
fn claims_json_parses_back() {
    let claims = Claims {
        user_id: "USERGGGGGGGGGGGGGGGG".to_owned(),
        token_version: 11,
        issuer: Service::LOCALHOST,
        exp: -5,
        iat: 1700000000,
    };
    let json = claims_json_string(&claims);
    assert_eq!(
        json,
        "{\"user_id\":\"USERGGGGGGGGGGGGGGGG\",\"token_version\":11,\"issuer\":\"LOCALHOST\",\"exp\":-5,\"iat\":1700000000}"
    );
    let parsed = parse_claims(&json).expect("canonical claims JSON must parse");
    assert_eq!(parsed.user_id, claims.user_id);
    assert_eq!(parsed.token_version, 11);
    assert_eq!(parsed.exp, -5);
    assert_eq!(parsed.iat, 1700000000);
    assert!(parse_claims("{\"user_id\":\"x\"}").is_none());
}

#[test]
fn service_from_headers() {
    assert!(Service::from_headers(None).is_err());
    assert_eq!(Service::from_headers(Some("anything")).unwrap(), Service::LOCALHOST);
}
