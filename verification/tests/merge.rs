use chunkify::{
    ChunkStrategy, ChunkStrategyError, CompletionRegistry, Fragment, MergeOutcome, MergePlan,
    StoreOutcome,
};
use std::collections::HashMap;

fn dotted(file_id: &str, chunk_index: usize) -> String {
    format!("{}.{}", file_id, chunk_index)
}

fn joined(base: &str, rel: &str) -> String {
    std::path::Path::new(base).join(rel).to_string_lossy().into_owned()
}

/// Stores `payload` as the session's caller would, on a disk that is a map.
fn save<F: Fn(&'static str, usize) -> String>(
    session: &ChunkStrategy<'static, F>,
    registry: &mut CompletionRegistry,
    disk: &mut HashMap<String, Vec<u8>>,
    payload: &[u8],
    chunk_index: usize,
) -> Result<(), ChunkStrategyError> {
    let chunk_path = session.get_chunk_path(session.file_id(), chunk_index);
    disk.insert(chunk_path, payload.to_vec());
    session.record_chunk(registry, chunk_index, StoreOutcome::Stored)
}

/// Carries out `plan` as the session's caller would, on a disk that is a map.
fn carry_out(plan: &MergePlan, disk: &mut HashMap<String, Vec<u8>>) -> MergeOutcome {
    let mut output: Vec<u8> = Vec::new();
    disk.insert(plan.output_path.clone(), Vec::new());
    for fragment in plan.fragments.iter() {
        match disk.get(&fragment.path) {
            Some(payload) => output.extend_from_slice(payload),
            None => {
                return MergeOutcome::ReadFailed(fragment.chunk_index, String::from("not found"))
            }
        }
        disk.insert(plan.output_path.clone(), output.clone());
        disk.remove(&fragment.path);
    }
    MergeOutcome::Merged
}

#[test]
fn three_chunks_saved_out_of_order_merge_in_order() {
    let session = ChunkStrategy::new(0, "uploads", "f1", "out.bin", 3, dotted).unwrap();
    let mut registry = CompletionRegistry::new();
    let mut disk = HashMap::new();
    assert_eq!(save(&session, &mut registry, &mut disk, b"B", 1), Ok(()));
    assert_eq!(save(&session, &mut registry, &mut disk, b"C", 2), Ok(()));
    assert_eq!(save(&session, &mut registry, &mut disk, b"A", 0), Ok(()));
    let plan = session.prepare_merge(&mut registry).unwrap();
    let outcome = carry_out(&plan, &mut disk);
    assert_eq!(outcome, MergeOutcome::Merged);
    assert_eq!(session.finish_merge(outcome), Ok(()));
    assert_eq!(disk.get(&joined("uploads", "out.bin")), Some(&b"ABC".to_vec()));
}

#[test]
fn merge_leaves_out_the_chunks_before_the_start() {
    let session = ChunkStrategy::new(2, "uploads", "f1", "out.bin", 4, dotted).unwrap();
    let mut registry = CompletionRegistry::new();
    let mut disk = HashMap::new();
    assert_eq!(save(&session, &mut registry, &mut disk, b"dd", 3), Ok(()));
    assert_eq!(save(&session, &mut registry, &mut disk, b"a", 0), Ok(()));
    assert_eq!(save(&session, &mut registry, &mut disk, b"ccc", 2), Ok(()));
    assert_eq!(
        session.prepare_merge(&mut registry).err(),
        Some(ChunkStrategyError::Merge)
    );
    assert_eq!(save(&session, &mut registry, &mut disk, b"bb", 1), Ok(()));
    let plan = session.prepare_merge(&mut registry).unwrap();
    assert_eq!(carry_out(&plan, &mut disk), MergeOutcome::Merged);
    assert_eq!(disk.get(&joined("uploads", "out.bin")), Some(&b"cccdd".to_vec()));
    assert_eq!(disk.get(&joined("uploads", "f1.0")), Some(&b"a".to_vec()));
    assert_eq!(disk.get(&joined("uploads", "f1.1")), Some(&b"bb".to_vec()));
}

#[test]
fn plan_lists_the_fragments_in_rising_order() {
    let session = ChunkStrategy::new(1, "uploads", "f1", "out.bin", 5, dotted).unwrap();
    let mut registry = CompletionRegistry::new();
    for chunk_index in [4usize, 0, 3, 1, 2] {
        assert_eq!(
            session.record_chunk(&mut registry, chunk_index, StoreOutcome::Stored),
            Ok(())
        );
    }
    let plan = session.prepare_merge(&mut registry).unwrap();
    assert_eq!(plan.output_path, joined("uploads", "out.bin"));
    assert_eq!(
        plan.fragments,
        vec![
            Fragment { chunk_index: 1, path: joined("uploads", "f1.1") },
            Fragment { chunk_index: 2, path: joined("uploads", "f1.2") },
            Fragment { chunk_index: 3, path: joined("uploads", "f1.3") },
            Fragment { chunk_index: 4, path: joined("uploads", "f1.4") },
        ]
    );
}

#[test]
fn plan_of_a_single_chunk() {
    let session = ChunkStrategy::new(0, "uploads", "f1", "out.bin", 1, dotted).unwrap();
    let mut registry = CompletionRegistry::new();
    assert_eq!(session.record_chunk(&mut registry, 0, StoreOutcome::Stored), Ok(()));
    let plan = session.prepare_merge(&mut registry).unwrap();
    assert_eq!(
        plan,
        MergePlan {
            output_path: joined("uploads", "out.bin"),
            fragments: vec![Fragment { chunk_index: 0, path: joined("uploads", "f1.0") }],
        }
    );
}

#[test]
fn plan_that_starts_at_the_last_chunk() {
    let session = ChunkStrategy::new(2, "uploads", "f1", "out.bin", 3, dotted).unwrap();
    let mut registry = CompletionRegistry::new();
    for chunk_index in 0..3usize {
        assert_eq!(
            session.record_chunk(&mut registry, chunk_index, StoreOutcome::Stored),
            Ok(())
        );
    }
    let plan = session.prepare_merge(&mut registry).unwrap();
    assert_eq!(
        plan.fragments,
        vec![Fragment { chunk_index: 2, path: joined("uploads", "f1.2") }]
    );
}

#[test]
fn merge_before_any_chunk_is_refused() {
    let session = ChunkStrategy::new(0, "uploads", "f1", "out.bin", 3, dotted).unwrap();
    let mut registry = CompletionRegistry::new();
    assert_eq!(
        session.prepare_merge(&mut registry).err(),
        Some(ChunkStrategyError::Merge)
    );
    assert_eq!(registry.status("f1"), Some(vec![false, false, false]));
}

#[test]
fn merge_before_all_chunks_is_refused_and_writes_nothing() {
    let session = ChunkStrategy::new(0, "uploads", "f1", "out.bin", 3, dotted).unwrap();
    let mut registry = CompletionRegistry::new();
    let mut disk = HashMap::new();
    assert_eq!(save(&session, &mut registry, &mut disk, b"A", 0), Ok(()));
    assert_eq!(save(&session, &mut registry, &mut disk, b"C", 2), Ok(()));
    let on_disk = disk.clone();
    assert_eq!(
        session.prepare_merge(&mut registry).err(),
        Some(ChunkStrategyError::Merge)
    );
    assert_eq!(disk, on_disk);
    assert_eq!(disk.get(&joined("uploads", "out.bin")), None);
    assert_eq!(registry.status("f1"), Some(vec![true, false, true]));
}

#[test]
fn a_chunk_beyond_the_file_is_stored_but_not_recorded() {
    let session = ChunkStrategy::new(0, "uploads", "f1", "out.bin", 3, dotted).unwrap();
    let mut registry = CompletionRegistry::new();
    let mut disk = HashMap::new();
    assert_eq!(
        save(&session, &mut registry, &mut disk, b"stray", 5),
        Err(ChunkStrategyError::IndexOutOfBounds(5, 3))
    );
    assert_eq!(disk.get(&joined("uploads", "f1.5")), Some(&b"stray".to_vec()));
    assert_eq!(registry.status("f1"), Some(vec![false, false, false]));
}

#[test]
fn second_save_of_a_chunk_wins() {
    let session = ChunkStrategy::new(0, "uploads", "f1", "out.bin", 2, dotted).unwrap();
    let mut registry = CompletionRegistry::new();
    let mut disk = HashMap::new();
    assert_eq!(save(&session, &mut registry, &mut disk, b"old", 0), Ok(()));
    assert_eq!(save(&session, &mut registry, &mut disk, b"Z", 1), Ok(()));
    assert_eq!(save(&session, &mut registry, &mut disk, b"new", 0), Ok(()));
    assert_eq!(registry.status("f1"), Some(vec![true, true]));
    let plan = session.prepare_merge(&mut registry).unwrap();
    assert_eq!(plan.fragments.len(), 2);
    assert_eq!(carry_out(&plan, &mut disk), MergeOutcome::Merged);
    assert_eq!(disk.get(&joined("uploads", "out.bin")), Some(&b"newZ".to_vec()));
}

#[test]
fn merge_removes_the_fragments_it_read() {
    let session = ChunkStrategy::new(1, "uploads", "f1", "out.bin", 3, dotted).unwrap();
    let mut registry = CompletionRegistry::new();
    let mut disk = HashMap::new();
    for chunk_index in 0..3usize {
        assert_eq!(save(&session, &mut registry, &mut disk, b"x", chunk_index), Ok(()));
    }
    let plan = session.prepare_merge(&mut registry).unwrap();
    assert_eq!(carry_out(&plan, &mut disk), MergeOutcome::Merged);
    for chunk_index in 1..3usize {
        assert_eq!(disk.get(&session.get_chunk_path("f1", chunk_index)), None);
    }
    assert_eq!(disk.get(&session.get_chunk_path("f1", 0)), Some(&b"x".to_vec()));
    assert_eq!(disk.len(), 2);
}

#[test]
fn saves_in_every_order_complete_the_file() {
    let orders: [[usize; 3]; 6] =
        [[0, 1, 2], [0, 2, 1], [1, 0, 2], [1, 2, 0], [2, 0, 1], [2, 1, 0]];
    for order in orders {
        let session = ChunkStrategy::new(0, "uploads", "f1", "out.bin", 3, dotted).unwrap();
        let mut registry = CompletionRegistry::new();
        let mut disk = HashMap::new();
        let payloads: [&[u8]; 3] = [b"one,", b"two,", b"three"];
        for chunk_index in order {
            assert_eq!(
                save(&session, &mut registry, &mut disk, payloads[chunk_index], chunk_index),
                Ok(())
            );
        }
        assert_eq!(registry.status("f1"), Some(vec![true, true, true]));
        let plan = session.prepare_merge(&mut registry).unwrap();
        assert_eq!(carry_out(&plan, &mut disk), MergeOutcome::Merged);
        assert_eq!(
            disk.get(&joined("uploads", "out.bin")),
            Some(&b"one,two,three".to_vec())
        );
    }
}

#[test]
fn merge_empties_the_flags_of_the_file() {
    let session = ChunkStrategy::new(0, "uploads", "f1", "out.bin", 2, dotted).unwrap();
    let mut registry = CompletionRegistry::new();
    assert_eq!(session.record_chunk(&mut registry, 0, StoreOutcome::Stored), Ok(()));
    assert_eq!(session.record_chunk(&mut registry, 1, StoreOutcome::Stored), Ok(()));
    assert!(session.prepare_merge(&mut registry).is_ok());
    assert_eq!(registry.status("f1"), Some(vec![]));
    assert_eq!(
        session.prepare_merge(&mut registry).err(),
        Some(ChunkStrategyError::Merge)
    );
}

#[test]
fn two_sessions_of_one_file_share_the_flags() {
    let first = ChunkStrategy::new(0, "uploads", "f1", "out.bin", 2, dotted).unwrap();
    let second = ChunkStrategy::new(0, "uploads", "f1", "out.bin", 2, dotted).unwrap();
    let mut registry = CompletionRegistry::new();
    assert_eq!(first.record_chunk(&mut registry, 1, StoreOutcome::Stored), Ok(()));
    assert_eq!(second.record_chunk(&mut registry, 0, StoreOutcome::Stored), Ok(()));
    assert!(second.prepare_merge(&mut registry).is_ok());
}

#[test]
fn a_fragment_that_went_missing_ends_the_merge_with_read_chunk() {
    let session = ChunkStrategy::new(1, "uploads", "f1", "out.bin", 3, dotted).unwrap();
    let mut registry = CompletionRegistry::new();
    let mut disk = HashMap::new();
    assert_eq!(save(&session, &mut registry, &mut disk, b"A", 0), Ok(()));
    assert_eq!(save(&session, &mut registry, &mut disk, b"B", 1), Ok(()));
    assert_eq!(save(&session, &mut registry, &mut disk, b"C", 2), Ok(()));
    disk.remove(&joined("uploads", "f1.2"));
    let plan = session.prepare_merge(&mut registry).unwrap();
    let outcome = carry_out(&plan, &mut disk);
    assert_eq!(outcome, MergeOutcome::ReadFailed(2, String::from("not found")));
    assert_eq!(
        session.finish_merge(outcome),
        Err(ChunkStrategyError::ReadChunk(format!(
            "Failed to read chunk from {}: not found",
            joined("uploads", "f1.2")
        )))
    );
    assert_eq!(disk.get(&joined("uploads", "out.bin")), Some(&b"B".to_vec()));
    assert_eq!(disk.get(&joined("uploads", "f1.1")), None);
    assert_eq!(registry.status("f1"), Some(vec![]));
}
