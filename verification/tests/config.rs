//! Configuration value interpretation.

use pixel_collector_api::env::{eq_ignore_ascii_case, Env, LogLevel, Stage};

#[test]
fn log_level_cases() {
    assert_eq!(Env::log_level(None), LogLevel::Error);
    assert_eq!(Env::log_level(Some("DEBUG")), LogLevel::Debug);
    assert_eq!(Env::log_level(Some("debug")), LogLevel::Debug);
    assert_eq!(Env::log_level(Some("Info")), LogLevel::Info);
    assert_eq!(Env::log_level(Some("warn")), LogLevel::Warn);
    assert_eq!(Env::log_level(Some("TRACE")), LogLevel::Trace);
    assert_eq!(Env::log_level(Some("verbose")), LogLevel::Error);
}

#[test]
fn stage_cases() {
    assert_eq!(
        Env::stage(None).unwrap_err().kind,
        pixel_collector_api::errors::ErrorKind::Internal
    );
    assert!(matches!(Env::stage(Some("local")), Ok(Stage::Local)));
    assert!(matches!(Env::stage(Some("PROD")), Ok(Stage::Prod)));
    assert!(matches!(Env::stage(Some("Test")), Ok(Stage::Test)));
    match Env::stage(Some("staging")) {
        Ok(Stage::Other(s)) => assert_eq!(s, "STAGING"),
        _ => panic!("an unknown stage must be kept, uppercased"),
    }
}

#[test]
fn case_insensitive_compare() {
    assert!(eq_ignore_ascii_case("LoCaL", "local"));
    assert!(!eq_ignore_ascii_case("local", "loca"));
    assert!(!eq_ignore_ascii_case("a", "b"));
}

#[test]
fn other_stage_values_are_ascii_uppercased() {
    match Env::stage(Some("stage-2b")) {
        Ok(Stage::Other(s)) => assert_eq!(s, "STAGE-2B"),
        _ => panic!("an unknown stage must be kept"),
    }
    // Only ASCII letters change case; anything else rides through.
    match Env::stage(Some("caf\u{e9}")) {
        Ok(Stage::Other(s)) => assert_eq!(s, "CAF\u{e9}"),
        _ => panic!("an unknown stage must be kept"),
    }
}
