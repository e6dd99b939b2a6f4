//! A concurrent in-memory key-value cache with a ranked arena.
//!
//! Entries rise slowly through a ranked sequence (a hit buys at most one
//! rank), newcomers land just inside the at-risk zone rather than at the
//! tail, and a moving boundary (`evict_point`) separates the safe zone
//! from the entries that the next cliff-edge eviction discards wholesale.
//!
//! [`cache::Cache`] is the single-writer data structure; all of its
//! mutations are specified by total transition functions on
//! [`cache::CacheModel`] and verified against them. [`dual::DualCache`]
//! is the concurrency envelope: a writer mutex around the authoritative
//! cache, an atomically swapped read-only mirror, and a lossy signal
//! queue that reports read hits back to the writer.

pub mod cache;
pub mod dual;
pub mod laws;
pub mod node;
