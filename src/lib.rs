//! Challenge/response authentication relay: signed, expiring claims that
//! prove control of an upstream account through its public profile text.
pub mod auth;
pub mod claims;
pub mod token;
