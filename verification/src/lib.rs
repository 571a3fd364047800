//! Certificate Transparency log ingestion library.
//!
//! Covers the core of a CT-log monitor: tiling a log's index range into
//! fetchable batches, decoding RFC 6962 Merkle-tree leaves, decoding the
//! JSON envelopes of the `get-sth` and `get-entries` endpoints, driving a
//! per-range fetch state machine, and deduplicating observed domains.

pub mod b64;
pub mod batch;
pub mod bytes;
pub mod envelope;
pub mod errors;
pub mod leaf;
pub mod ranges;
pub mod sched;
pub mod sink;
