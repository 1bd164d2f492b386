//! A value-mixing ledger: fixed-denomination deposits locked behind a
//! commitment, withdrawn later against a single-use authorization token.

pub mod auth;
pub mod denomination;
pub mod digest;
pub mod error;
pub mod fee;
pub mod laws;
pub mod mixer;
pub mod spent;
pub mod store;
