//! Verified core of a collaborative-document ingestion and relay backend.
//!
//! The library accepts externally submitted document state (single records or
//! length-prefixed batches), validates it, optionally enriches it with search
//! embeddings, persists it under per-workspace access control, and relays
//! live-edit messages to bounded per-connection sinks with fail-fast
//! backpressure.

pub mod bytes;
pub mod codec;
pub mod compress;
pub mod enrich;
pub mod error;
pub mod frame;
pub mod pipeline;
pub mod publish;
pub mod record;
pub mod relay;
pub mod store;
pub mod validate;
