//! Relaying of block headers from a source chain to a target chain:
//! the header queue, the synchronization scheduler built on it,
//! and the primitives of the message lanes.

pub mod headers;
pub mod messages;
pub mod numbers;
pub mod sync;
pub mod sync_types;
pub mod transitions;
