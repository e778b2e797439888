//! The ways an upload can fail.
use vstd::prelude::*;

verus! {

/// The phase in which an upload failed. The caller keeps the underlying
/// cause next to it.
#[derive(Debug, Clone, Copy, PartialEq, Eq, Structural)]
pub enum UploadError {
    /// The source file is missing or cannot be opened.
    FileOpenError,
    /// Reading the source file failed part way.
    FileReadError,
    /// The storage service rejected a block.
    BlockUploadError,
    /// Committing the block list failed.
    CommitError,
    /// The chunk size is not usable; detected before any I/O.
    ConfigurationError,
}

} // verus!
