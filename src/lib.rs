//! A shared, versioned key-value memory with optimistic transactions.
//!
//! Attempts buffer their reads and writes locally and are committed against
//! the store with a validate-then-apply protocol; a conflicting attempt is
//! discarded and retried by the driver that owns the loop.

pub mod primitive;
pub mod memory;
pub mod transaction;
pub mod laws;
pub mod keys;
pub mod bodies;
pub mod redis_uri;
pub mod messages;
pub mod peer_queue;
