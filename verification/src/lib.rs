//! A single-leader replicated in-memory key-value store: the wire codec,
//! the per-node role state machine, the follower registry, the synchronous
//! replication path, and the client's connection/failover state machine.
//!
//! Network I/O lives outside this crate; every decision the system makes —
//! how a frame is encoded and decoded, how a request is dispatched under a
//! role, how the registry and the store change, how the client fails over —
//! is verified here.

pub mod codec;
pub mod message;
pub mod registry;
pub mod responses;
pub mod server;
pub mod session;
pub mod store;
