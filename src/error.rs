//! Error kinds of the storage layer.

use vstd::prelude::*;

verus! {

/// Error kinds reported by the cache core.
#[derive(Clone, Copy, Debug, PartialEq, Eq, Structural)]
pub enum StorageError {
    /// The operation is not supported.
    Unsupported,
    /// Waiting for a chunk exceeded its limit.
    Timeout,
    /// A write into a destination buffer fell outside of it.
    VolatileSlice,
    /// A source or destination position lies beyond its buffers.
    MemOverflow,
    /// A region cannot grow: the next range does not start where it ends.
    NotContinuous,
    /// Inconsistent configuration or malformed descriptors.
    InvalidArgument,
    /// A blob or chunk lookup missed.
    NotFound,
    /// An object with the same key exists already.
    AlreadyExists,
    /// An underlying read or write failed or was short.
    Io,
    /// Chunk data does not match its digest.
    DigestMismatch,
    /// The codec reported a failure.
    Decompress,
}

/// Specialized `Result` for the storage layer.
pub type StorageResult<T> = Result<T, StorageError>;

} // verus!
