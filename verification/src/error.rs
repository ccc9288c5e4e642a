//! The errors of an upload session, and what they say.

use vstd::prelude::*;

verus! {

/// Why an operation of an upload session failed.
#[derive(Debug, PartialEq, Eq)]
pub enum ChunkStrategyError {
    /// A chunk index (first field) that is not below the number of chunks (second field).
    IndexOutOfBounds(usize, usize),
    /// The upload directory could not be created.
    CreateDirectory(String),
    /// A chunk's payload could not be stored.
    WriteChunk(String),
    /// A merge was asked for while chunks were still missing.
    Merge,
    /// The output file could not be opened.
    CreateOutputFile(String),
    /// A fragment that was recorded as saved could not be read back.
    ReadChunk(String),
    /// Appending to the output file failed.
    WriteOutput(String),
}

/// What an operation of an upload session returns.
pub type ChunkStrategyResult = Result<(), ChunkStrategyError>;

/// What `WriteChunk` says of a fragment at `chunk_path` that could not be written.
pub open spec fn write_chunk_message(chunk_path: Seq<char>, detail: Seq<char>) -> Seq<char> {
    "Failed to write chunk to "@ + chunk_path + ": "@ + detail
}

/// What `ReadChunk` says of a fragment at `chunk_path` that could not be read.
pub open spec fn read_chunk_message(chunk_path: Seq<char>, detail: Seq<char>) -> Seq<char> {
    "Failed to read chunk from "@ + chunk_path + ": "@ + detail
}

/// The error for a fragment at `chunk_path` that could not be written.
pub(crate) fn write_chunk_error(chunk_path: &str, detail: &str) -> (error: ChunkStrategyError)
    ensures
        error matches ChunkStrategyError::WriteChunk(message) && message@ == write_chunk_message(
            chunk_path@,
            detail@,
        ),
{
    let mut message = "Failed to write chunk to ".to_owned();
    message.append(chunk_path);
    message.append(": ");
    message.append(detail);
    ChunkStrategyError::WriteChunk(message)
}

/// The error for a fragment at `chunk_path` that could not be read.
pub(crate) fn read_chunk_error(chunk_path: &str, detail: &str) -> (error: ChunkStrategyError)
    ensures
        error matches ChunkStrategyError::ReadChunk(message) && message@ == read_chunk_message(
            chunk_path@,
            detail@,
        ),
{
    let mut message = "Failed to read chunk from ".to_owned();
    message.append(chunk_path);
    message.append(": ");
    message.append(detail);
    ChunkStrategyError::ReadChunk(message)
}

} // verus!
