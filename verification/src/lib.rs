//! A node-local core for a decentralized model directory.
//!
//! The crate keeps a registry of reachable peers, turns announce and lookup
//! request lists into distributed-hash-table operations, accumulates lookup
//! results into a model index, and renders both the peer snapshot and the
//! model index as JSON text for persistence.

pub mod assoc;
pub mod dht;
pub mod edge;
pub mod events;
pub mod index;
pub mod json;
pub mod local;
pub mod registry;
pub mod strorder;
