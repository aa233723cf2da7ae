//! Batched membership lookup of candidate addresses against a read-only
//! address store.
//!
//! A run has two phases. The loader turns the text of a candidate list into
//! an ordered sequence of trimmed, non-empty keys. The matcher splits those
//! keys into consecutive batches of bounded size, asks the store one
//! membership query per batch, and concatenates the answers in batch order.

pub mod batch;
pub mod config;
pub mod error;
pub mod keys;
pub mod loader;
pub mod matcher;
pub mod model;
pub mod outcome;
pub mod query;
pub mod store;
pub mod trim;
