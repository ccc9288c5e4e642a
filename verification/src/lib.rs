//! Resumable upload of a file in numbered chunks.
//!
//! Chunks arrive in any order, any number of times. Each is kept as a fragment on disk; a
//! registry notes which chunks of which file have been saved; a file whose chunks are all
//! there is merged from its fragments, in rising order of their index.
//!
//! This library holds the decisions: where a fragment is kept, what the registry holds after
//! a save or a merge, when a merge may go ahead and what it reads in which order, and which
//! error an operation ends with. Its caller does the reading and writing.

pub mod disk;
pub mod error;
pub mod laws;
pub mod outcome;
pub mod path;
pub mod registry;
pub mod strategy;

pub use error::{ChunkStrategyError, ChunkStrategyResult};
pub use outcome::{MergeOutcome, StoreOutcome};
pub use registry::CompletionRegistry;
pub use strategy::{ChunkStrategy, Fragment, MergePlan};
