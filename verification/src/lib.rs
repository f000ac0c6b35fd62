//! A durable per-page comment store: an in-memory index of comments keyed by
//! page, backed by an append-only log of length-delimited binary records that
//! is replayed at startup to rebuild the index. Writes are accepted in memory
//! and handed to a single background worker that appends them to the log.

pub mod codec;
pub mod comment;
pub mod laws;
pub mod log;
pub mod store;
pub mod system;
