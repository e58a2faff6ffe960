//! vorgrs: a personal media-archive manager built around a deduplicated,
//! content-addressed file store and a relational metadata index.
//!
//! This crate holds the verified core: the schema validation walk, the
//! in-memory model of the relational metadata store with its transactional
//! import semantics, content-hash computation, placement of files in the
//! hash-sharded store tree, and the integrity reconciliation that compares
//! the index against the store contents.

pub mod db;
pub mod error;
pub mod fstore;
pub mod hashing;
pub mod integrity;
pub mod repo;
pub mod schema;
pub mod strutil;
pub mod utils;
