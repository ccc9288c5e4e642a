use chunkify::{
    ChunkStrategy, ChunkStrategyError, ChunkStrategyResult, CompletionRegistry, MergeOutcome,
    StoreOutcome,
};

fn dotted(file_id: &str, chunk_index: usize) -> String {
    format!("{}.{}", file_id, chunk_index)
}

fn joined(base: &str, rel: &str) -> String {
    std::path::Path::new(base).join(rel).to_string_lossy().into_owned()
}

#[test]
fn stored_chunk_is_recorded() {
    let session = ChunkStrategy::new(0, "uploads", "f1", "out.bin", 3, dotted).unwrap();
    let mut registry = CompletionRegistry::new();
    let recorded: ChunkStrategyResult = session.record_chunk(&mut registry, 1, StoreOutcome::Stored);
    assert_eq!(recorded, Ok(()));
    assert_eq!(registry.status("f1"), Some(vec![false, true, false]));
}

#[test]
fn stored_chunk_beyond_the_file_is_refused() {
    let session = ChunkStrategy::new(0, "uploads", "f1", "out.bin", 3, dotted).unwrap();
    let mut registry = CompletionRegistry::new();
    assert_eq!(
        session.record_chunk(&mut registry, 3, StoreOutcome::Stored),
        Err(ChunkStrategyError::IndexOutOfBounds(3, 3))
    );
    assert_eq!(
        session.record_chunk(&mut registry, usize::MAX, StoreOutcome::Stored),
        Err(ChunkStrategyError::IndexOutOfBounds(usize::MAX, 3))
    );
    assert_eq!(registry.status("f1"), Some(vec![false, false, false]));
}

#[test]
fn directory_failure_is_reported_and_records_nothing() {
    let session = ChunkStrategy::new(0, "uploads", "f1", "out.bin", 3, dotted).unwrap();
    let mut registry = CompletionRegistry::new();
    assert_eq!(
        session.record_chunk(
            &mut registry,
            1,
            StoreOutcome::DirectoryFailed(String::from("permission denied"))
        ),
        Err(ChunkStrategyError::CreateDirectory(String::from("permission denied")))
    );
    assert_eq!(registry.status("f1"), None);
}

#[test]
fn write_failure_names_the_fragment_and_records_nothing() {
    let session = ChunkStrategy::new(0, "uploads", "f1", "out.bin", 3, dotted).unwrap();
    let mut registry = CompletionRegistry::new();
    assert_eq!(session.record_chunk(&mut registry, 0, StoreOutcome::Stored), Ok(()));
    assert_eq!(
        session.record_chunk(&mut registry, 2, StoreOutcome::WriteFailed(String::from("disk full"))),
        Err(ChunkStrategyError::WriteChunk(format!(
            "Failed to write chunk to {}: disk full",
            joined("uploads", "f1.2")
        )))
    );
    assert_eq!(registry.status("f1"), Some(vec![true, false, false]));
}

#[test]
fn write_failure_with_an_empty_detail() {
    let session = ChunkStrategy::new(0, "uploads", "f1", "out.bin", 3, dotted).unwrap();
    let mut registry = CompletionRegistry::new();
    assert_eq!(
        session.record_chunk(&mut registry, 0, StoreOutcome::WriteFailed(String::new())),
        Err(ChunkStrategyError::WriteChunk(format!(
            "Failed to write chunk to {}: ",
            joined("uploads", "f1.0")
        )))
    );
}

#[test]
fn merge_that_went_through_ends_well() {
    let session = ChunkStrategy::new(0, "uploads", "f1", "out.bin", 3, dotted).unwrap();
    assert_eq!(session.finish_merge(MergeOutcome::Merged), Ok(()));
}

#[test]
fn output_failure_is_reported() {
    let session = ChunkStrategy::new(0, "uploads", "f1", "out.bin", 3, dotted).unwrap();
    assert_eq!(
        session.finish_merge(MergeOutcome::OutputFailed(String::from("read-only file system"))),
        Err(ChunkStrategyError::CreateOutputFile(String::from("read-only file system")))
    );
}

#[test]
fn read_failure_names_the_fragment() {
    let session = ChunkStrategy::new(0, "uploads", "f1", "out.bin", 3, dotted).unwrap();
    assert_eq!(
        session.finish_merge(MergeOutcome::ReadFailed(1, String::from("No such file"))),
        Err(ChunkStrategyError::ReadChunk(format!(
            "Failed to read chunk from {}: No such file",
            joined("uploads", "f1.1")
        )))
    );
}

#[test]
fn append_failure_is_reported() {
    let session = ChunkStrategy::new(0, "uploads", "f1", "out.bin", 3, dotted).unwrap();
    assert_eq!(
        session.finish_merge(MergeOutcome::AppendFailed(String::from("no space left"))),
        Err(ChunkStrategyError::WriteOutput(String::from("no space left")))
    );
}

#[test]
fn missing_chunk_is_reported_as_merge() {
    let session = ChunkStrategy::new(0, "uploads", "f1", "out.bin", 2, dotted).unwrap();
    let mut registry = CompletionRegistry::new();
    assert_eq!(session.record_chunk(&mut registry, 1, StoreOutcome::Stored), Ok(()));
    assert_eq!(
        session.prepare_merge(&mut registry).err(),
        Some(ChunkStrategyError::Merge)
    );
}
