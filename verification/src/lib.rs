//! A small authentication backend library.
//!
//! The library issues and validates signed session tokens, stores
//! credential and identity records in a schema-less attribute store
//! format, and brokers a third-party OAuth2 authorization-code exchange.
//!
//! The heart of the crate is the attribute codec: a bidirectional,
//! type-erased mapping between the store's tagged attribute format and a
//! structured value model (nested maps, lists and scalars), layered under
//! typed record (de)serialization.

pub mod errors;
pub mod num;
pub mod structured;
pub mod attribute;
pub mod codec;
pub mod record;
pub mod time;
pub mod auth;
pub mod oauth_link_state;
pub mod b64;
pub mod jwt;
pub mod user;
pub mod oauth;
pub mod env;
pub mod types;
