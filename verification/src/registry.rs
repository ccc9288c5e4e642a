//! The registry of the chunks that have been saved: what it holds, and what a save and a
//! merge make of it.

use vstd::prelude::*;
use crate::error::{ChunkStrategyError, ChunkStrategyResult};

verus! {

/// The flags of a file of which no chunk has arrived: `total_chunks` flags, none set.
pub open spec fn none_saved(total_chunks: nat) -> Seq<bool> {
    Seq::new(total_chunks, |i: int| false)
}

/// The flags that a save for `file_id` works on: those that `files` holds for it, or fresh
/// ones where it holds none, or holds another number of them than `total_chunks`.
pub open spec fn flags_for_save(
    files: Map<Seq<char>, Seq<bool>>,
    file_id: Seq<char>,
    total_chunks: nat,
) -> Seq<bool> {
    if files.dom().contains(file_id) && files[file_id].len() == total_chunks {
        files[file_id]
    } else {
        none_saved(total_chunks)
    }
}

/// The registry after chunk `chunk_index` of `file_id` was saved. An index that is not below
/// `total_chunks` sets no flag, but the file's flags have been made ready all the same.
pub open spec fn after_save(
    files: Map<Seq<char>, Seq<bool>>,
    file_id: Seq<char>,
    total_chunks: nat,
    chunk_index: nat,
) -> Map<Seq<char>, Seq<bool>> {
    let flags = flags_for_save(files, file_id, total_chunks);
    if chunk_index < total_chunks {
        files.insert(file_id, flags.update(chunk_index as int, true))
    } else {
        files.insert(file_id, flags)
    }
}

/// The flags that a merge of `file_id` looks at: those that `files` holds for it, whatever
/// their number, or fresh ones where it holds none.
pub open spec fn flags_for_merge(
    files: Map<Seq<char>, Seq<bool>>,
    file_id: Seq<char>,
    total_chunks: nat,
) -> Seq<bool> {
    if files.dom().contains(file_id) {
        files[file_id]
    } else {
        none_saved(total_chunks)
    }
}

/// Whether `flags` show a complete file of `total_chunks` chunks: there is a flag for every
/// index below `total_chunks`, and no flag is unset.
pub open spec fn all_saved(flags: Seq<bool>, total_chunks: nat) -> bool {
    &&& total_chunks <= flags.len()
    &&& forall|i: int| 0 <= i < flags.len() ==> flags[i]
}

/// Whether a merge of `file_id` may go ahead.
pub open spec fn merge_ready(
    files: Map<Seq<char>, Seq<bool>>,
    file_id: Seq<char>,
    total_chunks: nat,
) -> bool {
    all_saved(flags_for_merge(files, file_id, total_chunks), total_chunks)
}

/// The registry after a merge of `file_id` was attempted: where the merge goes ahead the
/// file's flags are emptied (the entry stays), otherwise they are the ones that were looked at.
pub open spec fn after_merge(
    files: Map<Seq<char>, Seq<bool>>,
    file_id: Seq<char>,
    total_chunks: nat,
) -> Map<Seq<char>, Seq<bool>> {
    if merge_ready(files, file_id, total_chunks) {
        files.insert(file_id, Seq::empty())
    } else {
        files.insert(file_id, flags_for_merge(files, file_id, total_chunks))
    }
}

/// The registry after the chunks of `file_id` whose indices `order` lists were saved, one
/// after the other.
pub open spec fn after_saves(
    files: Map<Seq<char>, Seq<bool>>,
    file_id: Seq<char>,
    total_chunks: nat,
    order: Seq<nat>,
) -> Map<Seq<char>, Seq<bool>>
    decreases order.len(),
{
    if order.len() == 0 {
        files
    } else {
        after_save(
            after_saves(files, file_id, total_chunks, order.drop_last()),
            file_id,
            total_chunks,
            order.last(),
        )
    }
}

/// Whether `files` has chunk `chunk_index` of `file_id` down as saved.
pub open spec fn marked(
    files: Map<Seq<char>, Seq<bool>>,
    file_id: Seq<char>,
    chunk_index: nat,
) -> bool {
    &&& files.dom().contains(file_id)
    &&& chunk_index < files[file_id].len()
    &&& files[file_id][chunk_index as int]
}

/// What is known of one file: which of its chunks have been saved.
struct FileProgress {
    file_id: String,
    saved: Vec<bool>,
}

/// No file identifier occurs twice.
spec fn distinct_files(files: Seq<FileProgress>) -> bool {
    forall|i: int, j: int|
        0 <= i < j < files.len() ==> files[i].file_id@ != files[j].file_id@
}

/// Whether `file_id` stands at place `k` in `files`.
spec fn is_at(files: Seq<FileProgress>, file_id: Seq<char>, k: int) -> bool {
    0 <= k < files.len() && files[k].file_id@ == file_id
}

/// Whether `file_id` stands in `files`.
spec fn holds(files: Seq<FileProgress>, file_id: Seq<char>) -> bool {
    exists|k: int| is_at(files, file_id, k)
}

/// The place of `file_id` in `files`, where it stands there.
spec fn position(files: Seq<FileProgress>, file_id: Seq<char>) -> int {
    choose|k: int| is_at(files, file_id, k)
}

/// The flags of each file that stands in `files`.
spec fn contents(files: Seq<FileProgress>) -> Map<Seq<char>, Seq<bool>> {
    Map::new(
        |file_id: Seq<char>| holds(files, file_id),
        |file_id: Seq<char>| files[position(files, file_id)].saved@,
    )
}

/// A file stands at one place only.
proof fn lemma_position(files: Seq<FileProgress>, file_id: Seq<char>, k: int)
    requires
        distinct_files(files),
        is_at(files, file_id, k),
    ensures
        holds(files, file_id),
        position(files, file_id) == k,
        contents(files).dom().contains(file_id),
        contents(files)[file_id] == files[k].saved@,
{
}

/// New flags for a file that stands in `files` are new flags in its contents.
proof fn lemma_replace(files: Seq<FileProgress>, k: int, entry: FileProgress)
    requires
        distinct_files(files),
        0 <= k < files.len(),
        entry.file_id@ == files[k].file_id@,
    ensures
        distinct_files(files.update(k, entry)),
        contents(files.update(k, entry)) == contents(files).insert(entry.file_id@, entry.saved@),
{
    let after = files.update(k, entry);
    assert(distinct_files(after));
    assert forall|file_id: Seq<char>| holds(after, file_id) <==> holds(files, file_id) by {
        if holds(after, file_id) {
            let p = position(after, file_id);
            assert(is_at(files, file_id, p));
        }
        if holds(files, file_id) {
            let p = position(files, file_id);
            assert(is_at(after, file_id, p));
        }
    }
    assert forall|file_id: Seq<char>| holds(after, file_id) implies #[trigger] contents(
        after,
    )[file_id] == contents(files).insert(entry.file_id@, entry.saved@)[file_id] by {
        let p = position(after, file_id);
        lemma_position(files, file_id, p);
        if file_id == entry.file_id@ {
            lemma_position(after, file_id, k);
        }
    }
    assert(is_at(files, entry.file_id@, k));
}

/// A file that did not stand in `files` stands in its contents once it is added.
proof fn lemma_push(files: Seq<FileProgress>, entry: FileProgress)
    requires
        distinct_files(files),
        !holds(files, entry.file_id@),
    ensures
        distinct_files(files.push(entry)),
        contents(files.push(entry)) == contents(files).insert(entry.file_id@, entry.saved@),
{
    let after = files.push(entry);
    assert(distinct_files(after)) by {
        assert forall|i: int, j: int| 0 <= i < j < after.len() implies after[i].file_id@
            != after[j].file_id@ by {
            if j >= files.len() {
                assert(!is_at(files, entry.file_id@, i));
            }
        }
    }
    lemma_position(after, entry.file_id@, files.len() as int);
    assert forall|file_id: Seq<char>|
        holds(after, file_id) <==> (holds(files, file_id) || file_id == entry.file_id@) by {
        if holds(after, file_id) {
            let p = position(after, file_id);
            if p < files.len() {
                assert(is_at(files, file_id, p));
            }
        }
        if holds(files, file_id) {
            let p = position(files, file_id);
            assert(is_at(after, file_id, p));
        }
    }
    assert forall|file_id: Seq<char>| holds(files, file_id) implies #[trigger] contents(
        after,
    )[file_id] == contents(files)[file_id] by {
        let p = position(files, file_id);
        lemma_position(after, file_id, p);
    }
}

/// Where `file_id` stands in `files`, if it does.
fn find(files: &Vec<FileProgress>, file_id: &str) -> (found: Option<usize>)
    ensures
        match found {
            Some(k) => is_at(files@, file_id@, k as int),
            None => !holds(files@, file_id@),
        },
{
    let key = file_id.to_owned();
    let mut k: usize = 0;
    while k < files.len()
        invariant
            k <= files@.len(),
            key@ == file_id@,
            forall|j: int| 0 <= j < k ==> !is_at(files@, file_id@, j),
        decreases files@.len() - k,
    {
        if files[k].file_id == key {
            return Some(k);
        }
        k += 1;
    }
    None
}

/// The place of `file_id` in `files`. A file that did not stand there is added first, with
/// `total_chunks` flags, none set.
fn place_of(files: &mut Vec<FileProgress>, file_id: &str, total_chunks: usize) -> (k: usize)
    requires
        distinct_files(old(files)@),
    ensures
        distinct_files(final(files)@),
        is_at(final(files)@, file_id@, k as int),
        contents(final(files)@) == contents(old(files)@).insert(
            file_id@,
            flags_for_merge(contents(old(files)@), file_id@, total_chunks as nat),
        ),
{
    match find(files, file_id) {
        Some(k) => {
            proof {
                lemma_position(files@, file_id@, k as int);
            }
            k
        },
        None => {
            files.push(
                FileProgress { file_id: file_id.to_owned(), saved: vec![false; total_chunks] },
            );
            proof {
                let added = files@[old(files)@.len() as int];
                lemma_push(old(files)@, added);
                assert(added.saved@ =~= none_saved(total_chunks as nat));
            }
            files.len() - 1
        },
    }
}

/// Whether no flag is unset.
fn every_flag_set(flags: &Vec<bool>) -> (all: bool)
    ensures
        all <==> forall|i: int| 0 <= i < flags@.len() ==> flags@[i],
{
    let mut k: usize = 0;
    while k < flags.len()
        invariant
            k <= flags@.len(),
            forall|i: int| 0 <= i < k ==> flags@[i],
        decreases flags@.len() - k,
    {
        if !flags[k] {
            return false;
        }
        k += 1;
    }
    true
}

/// For each file that is being uploaded, one flag per chunk: set once the chunk is saved.
///
/// The view is a map from a file's identifier to its flags. An entry is made when a file is
/// first heard of, and is never taken out again.
pub struct CompletionRegistry {
    files: Vec<FileProgress>,
}

impl View for CompletionRegistry {
    type V = Map<Seq<char>, Seq<bool>>;

    closed spec fn view(&self) -> Map<Seq<char>, Seq<bool>> {
        contents(self.files@)
    }
}

impl CompletionRegistry {
    /// Each file has one entry.
    #[verifier::type_invariant]
    spec fn well_formed(&self) -> bool {
        distinct_files(self.files@)
    }

    /// A registry that has heard of no file.
    pub fn new() -> (registry: Self)
        ensures
            registry@ == Map::<Seq<char>, Seq<bool>>::empty(),
    {
        let registry = CompletionRegistry { files: Vec::new() };
        registry
    }

    /// Records that chunk `chunk_index` of `file_id`, a file of `total_chunks` chunks, has
    /// been saved. The file's flags are made ready first: fresh ones where the registry has
    /// none for it, or has another number of them. An index that is not below `total_chunks`
    /// is then refused.
    pub fn mark_saved(&mut self, file_id: &str, total_chunks: usize, chunk_index: usize) -> (marked:
        ChunkStrategyResult)
        ensures
            final(self)@ == after_save(
                old(self)@,
                file_id@,
                total_chunks as nat,
                chunk_index as nat,
            ),
            chunk_index < total_chunks ==> marked is Ok,
            chunk_index >= total_chunks ==> marked == Err::<(), ChunkStrategyError>(
                ChunkStrategyError::IndexOutOfBounds(chunk_index, total_chunks),
            ),
    {
        proof {
            use_type_invariant(&*self);
        }
        let mut files: Vec<FileProgress> = Vec::new();
        core::mem::swap(&mut self.files, &mut files);
        let k = place_of(&mut files, file_id, total_chunks);
        proof {
            lemma_position(files@, file_id@, k as int);
        }
        if files[k].saved.len() != total_chunks {
            let ghost found = files@;
            files[k].saved = vec![false; total_chunks];
            proof {
                lemma_replace(found, k as int, files@[k as int]);
                assert(files@[k as int].saved@ =~= none_saved(total_chunks as nat));
            }
        }
        if chunk_index >= total_chunks {
            self.files = files;
            return Err(ChunkStrategyError::IndexOutOfBounds(chunk_index, total_chunks));
        }
        let ghost ready = files@;
        files[k].saved[chunk_index] = true;
        proof {
            lemma_position(ready, file_id@, k as int);
            lemma_replace(ready, k as int, files@[k as int]);
        }
        self.files = files;
        Ok(())
    }

    /// Decides whether the merge of `file_id`, a file of `total_chunks` chunks, may go ahead.
    /// A file that the registry had not heard of gets fresh flags first. The merge may go
    /// ahead where the registry holds a flag for every chunk of the file and none of the
    /// file's flags is unset; the flags are then emptied, and the entry stays.
    pub fn begin_merge(&mut self, file_id: &str, total_chunks: usize) -> (begun:
        ChunkStrategyResult)
        ensures
            final(self)@ == after_merge(old(self)@, file_id@, total_chunks as nat),
            merge_ready(old(self)@, file_id@, total_chunks as nat) ==> begun is Ok,
            !merge_ready(old(self)@, file_id@, total_chunks as nat) ==> begun == Err::<
                (),
                ChunkStrategyError,
            >(ChunkStrategyError::Merge),
    {
        proof {
            use_type_invariant(&*self);
        }
        let mut files: Vec<FileProgress> = Vec::new();
        core::mem::swap(&mut self.files, &mut files);
        let k = place_of(&mut files, file_id, total_chunks);
        proof {
            lemma_position(files@, file_id@, k as int);
        }
        if files[k].saved.len() < total_chunks || !every_flag_set(&files[k].saved) {
            self.files = files;
            return Err(ChunkStrategyError::Merge);
        }
        let ghost looked_at = files@;
        files[k].saved.clear();
        proof {
            lemma_replace(looked_at, k as int, files@[k as int]);
        }
        self.files = files;
        Ok(())
    }

    /// The flags of `file_id`, where the registry has an entry for it.
    pub fn status(&self, file_id: &str) -> (flags: Option<Vec<bool>>)
        ensures
            match flags {
                Some(saved) => self@.dom().contains(file_id@) && saved@ == self@[file_id@],
                None => !self@.dom().contains(file_id@),
            },
    {
        proof {
            use_type_invariant(self);
        }
        match find(&self.files, file_id) {
            Some(k) => {
                proof {
                    lemma_position(self.files@, file_id@, k as int);
                }
                Some(self.files[k].saved.clone())
            },
            None => None,
        }
    }
}

} // verus!
