//! A minimal in-memory pub/sub message broker organized around "rooms":
//! 64-bit-identified channels into which clients post binary payloads.
//! Other clients fetch stored posts by index range or subscribe to receive
//! new posts as they arrive.
//!
//! This crate holds the broker's verified core: the room store, the binary
//! protocol codec, and the per-message dispatch logic for the two
//! transports (a persistent stream transport that supports subscription,
//! and a stateless datagram transport that does not). Network plumbing
//! lives outside the library and drives these functions with plain values.

pub mod codec;
pub mod db;
pub mod server;
