//! Decoder for the tagged-union nodes of a columnar IPC record batch.
//!
//! A record batch encodes a whole logical type tree as two parallel flat
//! sequences that every kind-specific decoder must walk in exact pre-order
//! lockstep: a queue of per-node field descriptors and a queue of physical
//! buffer descriptors.  This crate implements the queue-synchronized
//! traversal protocol for the tagged-union kind: [`read::read_union`]
//! materializes a union array from the queues and the batch body, and
//! [`skip::skip_union`] advances the queues by exactly the same amounts
//! without materializing anything, so that pruned columns leave the queues
//! correctly positioned for the columns decoded after them.

pub mod array;
pub mod bytes;
pub mod encode;
pub mod error;
pub mod format;
pub mod protocol;
pub mod read;
pub mod skip;
