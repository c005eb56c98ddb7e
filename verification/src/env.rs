//! Process configuration values.
//!
//! The process environment is a collaborator outside this library:
//! callers read the variables and hand the raw values in; this module
//! only interprets them.

use vstd::prelude::*;

use crate::errors::{AppError, ErrorKind};

verus! {

/// The deployment stage.
#[derive(Clone, Debug)]
pub enum Stage {
    Local,
    Test,
    Prod,
    Other(String),
}

/// How much the process should log.
#[derive(Clone, Copy, Debug, PartialEq, Eq, Structural)]
pub enum LogLevel {
    Trace,
    Debug,
    Info,
    Warn,
    Error,
}

/// The configuration a process runs with, loaded once at start.
#[derive(Clone, Debug)]
pub struct Env {
    pub stage: Stage,
    pub log_level: LogLevel,
    pub bucket_name: String,
    pub google_client_id: String,
    pub google_client_secret: String,
    pub jwt_secret: String,
}

/// The lowercase code of an ASCII character; other characters keep
/// their code.
pub open spec fn lower_code(c: char) -> int {
    if 65 <= c as u32 <= 90 {
        c as u32 + 32
    } else {
        c as u32 as int
    }
}

/// Whether two strings are equal up to ASCII case.
pub open spec fn spec_eq_nocase(a: Seq<char>, b: Seq<char>) -> bool {
    a.len() == b.len() && forall|i: int|
        0 <= i < a.len() ==> lower_code(#[trigger] a[i]) == lower_code(#[trigger] b[i])
}

/// Compares two strings ignoring ASCII case.
pub fn eq_ignore_ascii_case(a: &str, b: &str) -> (r: bool)
    ensures
        r == spec_eq_nocase(a@, b@),
{
    let alen = a.unicode_len();
    let blen = b.unicode_len();
    if alen != blen {
        return false;
    }
    let mut i: usize = 0;
    while i < alen
        invariant
            i <= alen,
            alen == a@.len(),
            alen == b@.len(),
            forall|k: int| 0 <= k < i ==> lower_code(#[trigger] a@[k]) == lower_code(b@[k]),
        decreases alen - i,
    {
        let ca = a.get_char(i) as u32;
        let cb = b.get_char(i) as u32;
        let la = if 65 <= ca && ca <= 90 {
            ca + 32
        } else {
            ca
        };
        let lb = if 65 <= cb && cb <= 90 {
            cb + 32
        } else {
            cb
        };
        if la != lb {
            proof {
                assert(lower_code(a@[i as int]) != lower_code(b@[i as int]));
            }
            return false;
        }
        i = i + 1;
    }
    true
}

impl Env {
    /// Interprets the raw `LOG_LEVEL` value: the named levels up to
    /// ASCII case, anything else — a missing value included — means
    /// errors only.
    pub fn log_level(value: Option<&str>) -> (r: LogLevel)
        ensures
            match value {
                None => r == LogLevel::Error,
                Some(v) => r == (if spec_eq_nocase(v@, "DEBUG"@) {
                    LogLevel::Debug
                } else if spec_eq_nocase(v@, "INFO"@) {
                    LogLevel::Info
                } else if spec_eq_nocase(v@, "WARN"@) {
                    LogLevel::Warn
                } else if spec_eq_nocase(v@, "TRACE"@) {
                    LogLevel::Trace
                } else {
                    LogLevel::Error
                }),
            },
    {
        match value {
            Option::None => LogLevel::Error,
            Option::Some(v) => {
                if eq_ignore_ascii_case(v, "DEBUG") {
                    LogLevel::Debug
                } else if eq_ignore_ascii_case(v, "INFO") {
                    LogLevel::Info
                } else if eq_ignore_ascii_case(v, "WARN") {
                    LogLevel::Warn
                } else if eq_ignore_ascii_case(v, "TRACE") {
                    LogLevel::Trace
                } else {
                    LogLevel::Error
                }
            },
        }
    }

    /// Interprets the raw `STAGE` value: the named stages up to ASCII
    /// case; anything else is kept as an other stage, uppercased when it
    /// is ASCII. A missing value is an error: the stage is required.
    pub fn stage(value: Option<&str>) -> (r: Result<Stage, AppError>)
        ensures
            match r {
                Ok(s) => value is Some && match s {
                    Stage::Local => spec_eq_nocase(value->Some_0@, "LOCAL"@),
                    Stage::Prod => spec_eq_nocase(value->Some_0@, "PROD"@),
                    Stage::Test => spec_eq_nocase(value->Some_0@, "TEST"@),
                    Stage::Other(o) => !spec_eq_nocase(value->Some_0@, "LOCAL"@)
                        && !spec_eq_nocase(value->Some_0@, "PROD"@) && !spec_eq_nocase(
                        value->Some_0@,
                        "TEST"@,
                    ) && o@.len() == value->Some_0@.len() && forall|i: int|
                        0 <= i < o@.len() ==> (#[trigger] o@[i]) as u32 == upper_code(
                            value->Some_0@[i],
                        ),
                },
                Err(e) => value is None && e.kind == ErrorKind::Internal,
            },
    {
        let v = match value {
            Option::None => {
                return Err(AppError::internal_server_error("STAGE not found"));
            },
            Option::Some(v) => v,
        };
        if eq_ignore_ascii_case(v, "LOCAL") {
            Ok(Stage::Local)
        } else if eq_ignore_ascii_case(v, "PROD") {
            Ok(Stage::Prod)
        } else if eq_ignore_ascii_case(v, "TEST") {
            Ok(Stage::Test)
        } else {
            Ok(Stage::Other(ascii_upper(v)))
        }
    }
}

/// The ASCII-uppercase code of a character: lowercase ASCII letters
/// move to their uppercase code; every other character keeps its code.
pub open spec fn upper_code(c: char) -> int {
    if 97 <= c as u32 <= 122 {
        c as u32 - 32
    } else {
        c as u32 as int
    }
}

/// Relies on `str::to_ascii_uppercase`: each character is mapped to its
/// ASCII uppercase equivalent, character for character; non-ASCII
/// characters are unchanged.
#[verifier::external_body]
fn ascii_upper(s: &str) -> (r: String)
    ensures
        r@.len() == s@.len(),
        forall|i: int| 0 <= i < s@.len() ==> (#[trigger] r@[i]) as u32 == upper_code(s@[i]),
{
    s.to_ascii_uppercase()
}

} // verus!
