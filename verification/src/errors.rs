//! Error taxonomy of the ingestion core.
//!
//! Decode problems are always recoverable at the granularity of one entry or
//! one batch; configuration problems abort a run before any fetching begins.

use vstd::prelude::*;

verus! {

/// A failure while decoding a JSON envelope, a base64 field, or the binary
/// Merkle-tree-leaf format.
#[derive(Clone, Copy, Debug, PartialEq, Eq, Structural)]
pub enum DecodeError {
    /// The JSON envelope is structurally wrong.
    Malformed,
    /// A base64 field could not be decoded.
    Encoding,
    /// Fewer bytes remain than a declared field length requires.
    Truncated,
    /// The leaf's version byte is not the recognized v1 value.
    UnknownVersion,
    /// The leaf-type byte is not the recognized timestamped-entry value.
    UnknownLeafType,
    /// The two-byte entry-type discriminant is neither X509 nor precert.
    UnknownEntryType,
}

/// An invalid input to the planner; fatal, aborts a run before any fetch.
#[derive(Clone, Copy, Debug, PartialEq, Eq, Structural)]
pub enum ConfigError {
    /// A batch size of zero cannot tile any non-empty log.
    ZeroBatchSize,
}

} // verus!
