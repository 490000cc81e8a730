//! A log-structured key-value store: an append-only record log paired with an
//! in-memory index that maps each key to the location of its most recent value.
//!
//! - [`bytes`] — the uniform byte conversion keys and values go through.
//! - [`codec`] — the record codec for the fixed-header binary format.
//! - [`store`] — the append-only log segment and the indexed store over it.

pub mod bytes;
pub mod codec;
pub mod store;
