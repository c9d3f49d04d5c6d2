//! Storage engine for a game-network backend: a schema and query layer that
//! maps accounts, groups, punishments and mail onto a flat ordered key-value
//! store, maintains secondary indexes, and enforces the invariants that the
//! underlying store does not provide natively.

pub mod errors;
pub mod codec;
pub mod domain;
pub mod user;
pub mod serial;
pub mod kv;
pub mod schema;
pub mod repo;
pub mod microsoft;
pub mod states;
pub mod routing;
pub mod mods;
pub mod config;
pub mod laws;
