//! The library's error type.

use vstd::prelude::*;

verus! {

/// Errors reported by Cortex. Each variant carries a human-readable message.
#[derive(Debug, Clone, PartialEq, Eq)]
pub enum CortexError {
    /// An I/O operation failed.
    Io(String),
    /// The database refused an operation.
    Database(String),
    /// Embedding text into vectors failed.
    Embedding(String),
    /// An ingestion plugin failed.
    Plugin(String),
    /// The configuration is missing or invalid.
    Config(String),
    /// The embedding model could not be found or fetched.
    ModelNotFound(String),
    /// No document has the requested identifier.
    DocumentNotFound(String),
    /// A value could not be serialized or deserialized.
    Serialization(String),
}

} // verus!
