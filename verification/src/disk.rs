//! The disk as the laws of this library see it: what each path holds, and how the saves and
//! the merge of an upload change that when nothing fails. Nothing here is run.

use vstd::prelude::*;

verus! {

/// The disk after `payload` was written to `path`, over whatever the path held. A disk is
/// taken to be no more than what each of its paths holds.
pub open spec fn written(
    disk: Map<Seq<char>, Seq<u8>>,
    path: Seq<char>,
    payload: Seq<u8>,
) -> Map<Seq<char>, Seq<u8>> {
    disk.insert(path, payload)
}

/// One save that went through: the payload of the chunk with this index was written to `path`.
pub struct Save {
    pub chunk_index: usize,
    pub path: Seq<char>,
    pub payload: Seq<u8>,
}

/// The disk after the payloads of `saves` were written, one after the other.
pub open spec fn after_writes(disk: Map<Seq<char>, Seq<u8>>, saves: Seq<Save>) -> Map<
    Seq<char>,
    Seq<u8>,
>
    decreases saves.len(),
{
    if saves.len() == 0 {
        disk
    } else {
        written(after_writes(disk, saves.drop_last()), saves.last().path, saves.last().payload)
    }
}

/// The indices of the chunks that `saves` saved, in the order of the saves.
pub open spec fn saved_indices(saves: Seq<Save>) -> Seq<nat> {
    Seq::new(saves.len(), |k: int| saves[k].chunk_index as nat)
}

/// The payload of the last of `saves` that saved the chunk with index `chunk_index`.
pub open spec fn last_payload(saves: Seq<Save>, chunk_index: usize) -> Seq<u8>
    decreases saves.len(),
{
    if saves.len() == 0 {
        Seq::empty()
    } else if saves.last().chunk_index == chunk_index {
        saves.last().payload
    } else {
        last_payload(saves.drop_last(), chunk_index)
    }
}

/// The disk after a merge that met with no failure: the file at `output_path` was opened
/// afresh, then each of `fragments` in turn was read, appended to that file, and removed.
pub open spec fn merged(
    disk: Map<Seq<char>, Seq<u8>>,
    output_path: Seq<char>,
    fragments: Seq<Seq<char>>,
) -> Map<Seq<char>, Seq<u8>>
    decreases fragments.len(),
{
    if fragments.len() == 0 {
        disk.insert(output_path, Seq::empty())
    } else {
        let so_far = merged(disk, output_path, fragments.drop_last());
        let fragment = fragments.last();
        so_far.insert(output_path, so_far[output_path] + so_far[fragment]).remove(fragment)
    }
}

/// What `disk` holds at each of `paths`, in their order.
pub open spec fn contents_of(disk: Map<Seq<char>, Seq<u8>>, paths: Seq<Seq<char>>) -> Seq<
    Seq<u8>,
> {
    Seq::new(paths.len(), |k: int| disk[paths[k]])
}

/// Whether the paths are those of files that do not get in each other's way during a merge
/// into `output_path`: no two of them are the same, and none is the output file.
pub open spec fn kept_apart(output_path: Seq<char>, fragments: Seq<Seq<char>>) -> bool {
    &&& forall|i: int, j: int| 0 <= i < j < fragments.len() ==> fragments[i] != fragments[j]
    &&& forall|k: int| 0 <= k < fragments.len() ==> fragments[k] != output_path
}

} // verus!
