//! Plain request and response shapes of the service's endpoints.

use vstd::prelude::*;

use crate::env::Stage;

verus! {

/// What the informational endpoint answers: the stage and when it was
/// last read. The timestamp is Unix milliseconds.
#[derive(Clone, Debug)]
pub struct Ping {
    pub stage: Stage,
    pub last_updated: i64,
}

/// A login or registration request body.
#[derive(Clone, Debug)]
pub struct Login {
    pub username: String,
    pub password: String,
}

} // verus!
