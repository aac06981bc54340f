//! An in-memory cache whose keys expire.
//!
//! A [`Storage`](storage::Storage) is spread over shards, each under a lock of its own. Every shard
//! keeps its entries together with the times at which they expire, and a task of its own removes
//! the keys whose time has come. [`http`] answers requests from a storage.
//!
//! What the cache holds is a mathematical map, described in [`model`]; [`laws`] proves what follows
//! from the contracts for the cache as a whole, and [`shared_laws`] for what tasks read from a
//! storage that they share.

pub mod cleanup;
pub mod clock;
pub mod config;
pub mod guarded;
pub mod http;
pub mod laws;
pub mod model;
pub mod payload;
pub mod placement;
pub mod shard;
pub mod shards;
pub mod shared_laws;
pub mod storage;
pub mod text;
mod tracker;
