//! Core of a personal-finance record service: a signed, expiring bearer-token
//! codec, the authentication guard that every protected request passes, and
//! the order query engine (filtering, pagination, per-type aggregation).
pub mod b64;
pub mod bytesutil;
pub mod claims;
pub mod token;
pub mod guard;
pub mod orders;
pub mod strutil;
pub mod dates;
pub mod query;
pub mod assemble;
pub mod messages;
