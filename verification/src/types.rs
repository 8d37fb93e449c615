//! The plain values that the operations hand out.

use vstd::prelude::*;

verus! {

/// Why an operation failed.
#[derive(Clone, Copy, Debug, PartialEq, Eq, Structural)]
pub enum FsError {
    /// No entry at the path, or no open file behind the descriptor.
    NotFound,
    /// A path that is not valid UTF-8, or a buffer too small for the answer.
    InvalidInput,
    /// Every descriptor is in use.
    ResourceExhausted,
    /// The store was marked as no longer trustworthy.
    PoisonedState,
}

/// What stands at a path.
#[derive(Clone, Copy, Debug, PartialEq, Eq, Structural)]
pub enum FileKind {
    /// A stored file.
    File,
    /// A directory: a proper prefix of a stored path.
    Directory,
}

/// What `stat` and `fstat` report.
#[derive(Clone, Copy, Debug, PartialEq, Eq, Structural)]
pub struct Metadata {
    /// The length of the content; 0 for a directory.
    pub size: usize,
    /// File or directory.
    pub kind: FileKind,
}

} // verus!
