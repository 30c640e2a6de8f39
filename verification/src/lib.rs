//! A durable registry of digital-asset records.
//!
//! The registry keeps three independent durable regions: the asset records
//! keyed by identifier, the counter that hands out identifiers, and the file
//! blobs keyed by content hash. Every operation is given the caller's
//! identity and the current time by its caller, and either applies in full
//! or leaves the registry as it was.
//!
//! - [`registry`]: the registry, its state and its operations.
//! - [`laws`]: what holds across several operations.
//! - [`asset`]: asset records and the description one is made from.
//! - [`principal`]: caller identities.
//! - [`listing`]: which records a query returns, and in what order.
//! - [`text`]: matching of texts without regard to case.
//! - [`codec`]: the bytes under which a record is kept.
//! - [`store`]: the durable regions, which are maps in stable memory.
//! - [`error`]: why an operation is refused.

pub mod asset;
pub mod codec;
pub mod error;
pub mod laws;
pub mod listing;
pub mod principal;
pub mod store;
pub mod text;
pub mod registry;
