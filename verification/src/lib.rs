//! Persistence core for a refund record inside a payment-orchestration
//! backend.
//!
//! The store runs in one of two modes per merchant: direct-to-relational, or
//! key-value-first, where the hot copy lives in a sharded hash structure and
//! relational durability is deferred to an asynchronous drain consumer fed by
//! a per-shard ordered log. This crate models the stores in memory and
//! verifies the routing, uniqueness, lookup-index and drain-log rules against
//! that model; real connections live outside it.

pub mod types;
pub mod codec;
pub mod keys;
pub mod store;
pub mod cache;
pub mod mock_db;
pub mod laws;
