//! A persistent roster of employee records.
//!
//! The library owns the logic of a small record store: identifiers are
//! allocated from a monotonically increasing counter, records are encoded
//! to bytes under 4-byte big-endian keys, and listing walks the keys in
//! ascending order. Durability is delegated to an embedded key-value
//! engine, reached only through a handful of trusted wrappers.

pub mod codec;
pub mod engine;
pub mod mutation;
pub mod record;
pub mod store;
