//! What the caller of a session reports back: how its work on the disk ended.

use vstd::prelude::*;

verus! {

/// How the attempt to store one chunk's payload ended. The texts say what went wrong.
#[derive(Debug, PartialEq, Eq)]
pub enum StoreOutcome {
    /// The payload is in its fragment.
    Stored,
    /// The upload directory was missing and could not be created.
    DirectoryFailed(String),
    /// The fragment could not be written.
    WriteFailed(String),
}

/// How carrying out a merge plan ended. The texts say what went wrong.
#[derive(Debug, PartialEq, Eq)]
pub enum MergeOutcome {
    /// Every fragment of the plan has been appended to the output file.
    Merged,
    /// The output file could not be opened.
    OutputFailed(String),
    /// The fragment of the chunk with this index could not be read.
    ReadFailed(usize, String),
    /// A fragment was read but could not be appended to the output file.
    AppendFailed(String),
}

} // verus!
