//! What holds of the saves and the merge of a file, whatever the order of the saves and
//! however often a chunk is saved: first of the registry alone, then of the disk as well.

use vstd::prelude::*;
use crate::disk::{
    after_writes, contents_of, kept_apart, last_payload, merged, saved_indices, written, Save,
};
use crate::registry::{
    after_save, after_saves, flags_for_save, marked, merge_ready, none_saved,
};
use crate::strategy::{names_each_chunk_once, ChunkStrategy, MergePlan};

verus! {

/// After one save or more, the file has one flag per chunk, and a flag is set exactly where
/// its chunk is among those saved, or was already set in the flags that the first save found.
pub proof fn lemma_flags_after_saves(
    files: Map<Seq<char>, Seq<bool>>,
    file_id: Seq<char>,
    total_chunks: nat,
    order: Seq<nat>,
)
    requires
        order.len() > 0,
    ensures
        after_saves(files, file_id, total_chunks, order).dom().contains(file_id),
        after_saves(files, file_id, total_chunks, order)[file_id].len() == total_chunks,
        forall|i: int|
            0 <= i < total_chunks ==> (#[trigger] after_saves(
                files,
                file_id,
                total_chunks,
                order,
            )[file_id][i] <==> order.contains(i as nat) || flags_for_save(
                files,
                file_id,
                total_chunks,
            )[i]),
    decreases order.len(),
{
    let earlier = order.drop_last();
    let after = after_saves(files, file_id, total_chunks, order);
    assert(after == after_save(
        after_saves(files, file_id, total_chunks, earlier),
        file_id,
        total_chunks,
        order.last(),
    ));
    if earlier.len() > 0 {
        lemma_flags_after_saves(files, file_id, total_chunks, earlier);
    }
    assert forall|i: int| 0 <= i < total_chunks implies (#[trigger] after[file_id][i]
        <==> order.contains(i as nat) || flags_for_save(files, file_id, total_chunks)[i]) by {
        if order.last() == i {
            assert(order[order.len() - 1] == i as nat);
        }
        if earlier.contains(i as nat) {
            let k = choose|k: int| 0 <= k < earlier.len() && earlier[k] == i as nat;
            assert(order[k] == i as nat);
        }
        if order.contains(i as nat) && order.last() != i {
            let k = choose|k: int| 0 <= k < order.len() && order[k] == i as nat;
            assert(earlier[k] == i as nat);
        }
    }
}

/// Once every chunk of a file has been saved, in whatever order and however often, and
/// whatever the registry held before, the file's merge goes ahead.
pub proof fn lemma_merge_ready_after_every_chunk(
    files: Map<Seq<char>, Seq<bool>>,
    file_id: Seq<char>,
    total_chunks: nat,
    order: Seq<nat>,
)
    requires
        0 < total_chunks,
        forall|i: nat| i < total_chunks ==> order.contains(i),
    ensures
        merge_ready(after_saves(files, file_id, total_chunks, order), file_id, total_chunks),
        after_saves(files, file_id, total_chunks, order)[file_id] == Seq::new(
            total_chunks,
            |i: int| true,
        ),
{
    assert(order.contains(0nat));
    lemma_flags_after_saves(files, file_id, total_chunks, order);
    let flags = after_saves(files, file_id, total_chunks, order)[file_id];
    assert forall|i: int| 0 <= i < flags.len() implies flags[i] by {
        assert(order.contains(i as nat));
    }
    assert(flags =~= Seq::new(total_chunks, |i: int| true));
}

/// The merge of a file is refused for as long as one of its chunks is missing: one that the
/// registry did not have down as saved to begin with, and that has not been saved since.
pub proof fn lemma_merge_refused_while_chunk_missing(
    files: Map<Seq<char>, Seq<bool>>,
    file_id: Seq<char>,
    total_chunks: nat,
    order: Seq<nat>,
    missing: nat,
)
    requires
        missing < total_chunks,
        !marked(files, file_id, missing),
        !order.contains(missing),
    ensures
        !merge_ready(after_saves(files, file_id, total_chunks, order), file_id, total_chunks),
{
    if order.len() > 0 {
        lemma_flags_after_saves(files, file_id, total_chunks, order);
        let flags = after_saves(files, file_id, total_chunks, order)[file_id];
        assert(!flags_for_save(files, file_id, total_chunks)[missing as int]);
        assert(!flags[missing as int]);
    } else if files.dom().contains(file_id) {
        if total_chunks <= files[file_id].len() {
            assert(!files[file_id][missing as int]);
        }
    } else {
        assert(!none_saved(total_chunks)[missing as int]);
    }
}

/// Saving a chunk a second time changes nothing in the registry: no chunk counts twice.
pub proof fn lemma_save_again_changes_nothing(
    files: Map<Seq<char>, Seq<bool>>,
    file_id: Seq<char>,
    total_chunks: nat,
    chunk_index: nat,
)
    ensures
        after_save(
            after_save(files, file_id, total_chunks, chunk_index),
            file_id,
            total_chunks,
            chunk_index,
        ) == after_save(files, file_id, total_chunks, chunk_index),
{
    let once = after_save(files, file_id, total_chunks, chunk_index);
    let twice = after_save(once, file_id, total_chunks, chunk_index);
    assert(once[file_id] =~= twice[file_id]);
    assert(once =~= twice);
}

/// Two saves for one file leave the registry the same whichever of them comes first: no
/// save undoes another.
pub proof fn lemma_saves_commute(
    files: Map<Seq<char>, Seq<bool>>,
    file_id: Seq<char>,
    total_chunks: nat,
    first: nat,
    second: nat,
)
    ensures
        after_save(
            after_save(files, file_id, total_chunks, first),
            file_id,
            total_chunks,
            second,
        ) == after_save(
            after_save(files, file_id, total_chunks, second),
            file_id,
            total_chunks,
            first,
        ),
{
    let one = after_save(
        after_save(files, file_id, total_chunks, first),
        file_id,
        total_chunks,
        second,
    );
    let other = after_save(
        after_save(files, file_id, total_chunks, second),
        file_id,
        total_chunks,
        first,
    );
    assert(one[file_id] =~= other[file_id]);
    assert(one =~= other);
}

/// A chunk is kept at one path only, provided that the naming function gives one name to one
/// chunk: a save and a merge, and a second save of the chunk, all meet at the same fragment.
pub proof fn lemma_one_path_per_chunk<'a, F: Fn(&'a str, usize) -> String>(
    session: ChunkStrategy<'a, F>,
    file_id: &'a str,
    chunk_index: usize,
    one: Seq<char>,
    other: Seq<char>,
)
    requires
        names_each_chunk_once(session.naming()),
        session.is_chunk_path(file_id, chunk_index, one),
        session.is_chunk_path(file_id, chunk_index, other),
    ensures
        one == other,
{
}

/// A second save of a chunk writes over the first, provided that the naming function gives
/// one name to one chunk: the disk is as if the second payload alone had been saved.
pub proof fn lemma_second_save_wins<'a, F: Fn(&'a str, usize) -> String>(
    session: ChunkStrategy<'a, F>,
    chunk_index: usize,
    disk: Map<Seq<char>, Seq<u8>>,
    first_path: Seq<char>,
    first: Seq<u8>,
    second_path: Seq<char>,
    second: Seq<u8>,
)
    requires
        names_each_chunk_once(session.naming()),
        session.is_chunk_path(session.file_id(), chunk_index, first_path),
        session.is_chunk_path(session.file_id(), chunk_index, second_path),
    ensures
        written(written(disk, first_path, first), second_path, second) == written(
            disk,
            second_path,
            second,
        ),
        written(written(disk, first_path, first), second_path, second)[second_path] == second,
{
    lemma_one_path_per_chunk(session, session.file_id(), chunk_index, first_path, second_path);
    assert(written(written(disk, first_path, first), second_path, second) =~= written(
        disk,
        second_path,
        second,
    ));
}

/// A merge of fragments that are kept apart and are all there leaves in the output file
/// what the fragments held, end to end and in the order in which they were listed. The
/// fragments are gone afterwards, and every other file is as it was.
pub proof fn lemma_merge_joins_the_fragments(
    disk: Map<Seq<char>, Seq<u8>>,
    output_path: Seq<char>,
    fragments: Seq<Seq<char>>,
)
    requires
        kept_apart(output_path, fragments),
        forall|k: int| 0 <= k < fragments.len() ==> disk.dom().contains(fragments[k]),
    ensures
        merged(disk, output_path, fragments).dom().contains(output_path),
        merged(disk, output_path, fragments)[output_path] == contents_of(
            disk,
            fragments,
        ).flatten(),
        forall|k: int|
            0 <= k < fragments.len() ==> !merged(disk, output_path, fragments).dom().contains(
                #[trigger] fragments[k],
            ),
        forall|path: Seq<char>|
            path != output_path && !fragments.contains(path) ==> (merged(
                disk,
                output_path,
                fragments,
            ).dom().contains(path) <==> disk.dom().contains(path)),
        forall|path: Seq<char>|
            path != output_path && !fragments.contains(path) && disk.dom().contains(path)
                ==> merged(disk, output_path, fragments)[path] == disk[path],
    decreases fragments.len(),
{
    let after = merged(disk, output_path, fragments);
    if fragments.len() == 0 {
        assert(contents_of(disk, fragments) =~= Seq::<Seq<u8>>::empty());
        assert(contents_of(disk, fragments).flatten() =~= Seq::<u8>::empty());
    } else {
        let earlier = fragments.drop_last();
        let last = fragments.last();
        let so_far = merged(disk, output_path, earlier);
        assert(kept_apart(output_path, earlier)) by {
            assert forall|i: int, j: int| 0 <= i < j < earlier.len() implies earlier[i]
                != earlier[j] by {
                assert(fragments[i] != fragments[j]);
            }
            assert forall|k: int| 0 <= k < earlier.len() implies earlier[k] != output_path by {
                assert(fragments[k] != output_path);
            }
        }
        assert forall|k: int| 0 <= k < earlier.len() implies disk.dom().contains(
            earlier[k],
        ) by {
            assert(disk.dom().contains(fragments[k]));
        }
        lemma_merge_joins_the_fragments(disk, output_path, earlier);
        assert(!earlier.contains(last)) by {
            if earlier.contains(last) {
                let k = choose|k: int| 0 <= k < earlier.len() && earlier[k] == last;
                assert(fragments[k] != fragments[fragments.len() - 1]);
            }
        }
        assert(last != output_path) by {
            assert(fragments[fragments.len() - 1] != output_path);
        }
        assert(disk.dom().contains(fragments[fragments.len() - 1]));
        assert(so_far[last] == disk[last]);
        assert(contents_of(disk, fragments) =~= contents_of(disk, earlier).push(disk[last]));
        contents_of(disk, earlier).lemma_flatten_push(disk[last]);
        assert(after[output_path] == so_far[output_path] + disk[last]);
        assert forall|k: int| 0 <= k < fragments.len() implies !after.dom().contains(
            #[trigger] fragments[k],
        ) by {
            if k < earlier.len() {
                assert(!so_far.dom().contains(earlier[k]));
                assert(fragments[k] != output_path);
            }
        }
        assert forall|path: Seq<char>|
            path != output_path && !fragments.contains(path) implies (after.dom().contains(path)
            <==> disk.dom().contains(path)) && (disk.dom().contains(path) ==> after[path]
            == disk[path]) by {
            assert(fragments[fragments.len() - 1] == last);
            assert(path != last);
            if earlier.contains(path) {
                let k = choose|k: int| 0 <= k < earlier.len() && earlier[k] == path;
                assert(fragments[k] == path);
            }
        }
    }
}

/// Whether `disk` holds, in the fragment of each chunk of the session's file, the payload
/// that `payloads` has for the chunk.
pub open spec fn holds_payloads<'a, F: Fn(&'a str, usize) -> String>(
    session: ChunkStrategy<'a, F>,
    disk: Map<Seq<char>, Seq<u8>>,
    payloads: Seq<Seq<u8>>,
) -> bool {
    &&& payloads.len() == session.total_chunks()
    &&& forall|chunk_index: usize, path: Seq<char>|
        chunk_index < session.total_chunks() && #[trigger] session.is_chunk_path(
            session.file_id(),
            chunk_index,
            path,
        ) ==> disk.dom().contains(path) && disk[path] == payloads[chunk_index as int]
}

/// Whether the chunks of the session's file are kept apart: no two of them in one fragment,
/// and none where the merged file goes.
pub open spec fn keeps_chunks_apart<'a, F: Fn(&'a str, usize) -> String>(
    session: ChunkStrategy<'a, F>,
) -> bool {
    &&& forall|one: usize, other: usize, path: Seq<char>|
        one < other < session.total_chunks() && #[trigger] session.is_chunk_path(
            session.file_id(),
            one,
            path,
        ) ==> !#[trigger] session.is_chunk_path(session.file_id(), other, path)
    &&& forall|chunk_index: usize|
        chunk_index < session.total_chunks() ==> !#[trigger] session.is_chunk_path(
            session.file_id(),
            chunk_index,
            session.output_path(),
        )
}

/// Where the fragments of the chunks of a file are kept apart and hold the chunks' payloads,
/// a merge by the session's plan that meets with no failure leaves in the output file the
/// payloads from the first chunk to merge up to the file's last, end to end and in rising
/// order of the chunks' index. The fragments that went into it are gone afterwards.
pub proof fn lemma_merged_file_is_the_payloads_in_order<'a, F: Fn(&'a str, usize) -> String>(
    session: ChunkStrategy<'a, F>,
    plan: MergePlan,
    disk: Map<Seq<char>, Seq<u8>>,
    payloads: Seq<Seq<u8>>,
)
    requires
        session.is_merge_plan(plan),
        keeps_chunks_apart(session),
        holds_payloads(session, disk, payloads),
    ensures
        merged(disk, plan.output_path@, plan.paths())[plan.output_path@] == payloads.subrange(
            session.start_chunk_index() as int,
            session.total_chunks() as int,
        ).flatten(),
        forall|k: int|
            0 <= k < plan.paths().len() ==> !merged(
                disk,
                plan.output_path@,
                plan.paths(),
            ).dom().contains(#[trigger] plan.paths()[k]),
{
    let start = session.start_chunk_index();
    let paths = plan.paths();
    assert forall|k: int| 0 <= k < paths.len() implies session.is_chunk_path(
        session.file_id(),
        (start + k) as usize,
        #[trigger] paths[k],
    ) by {
        let fragment = plan.fragments@[k];
        assert(fragment.chunk_index == start + k);
    }
    assert(kept_apart(plan.output_path@, paths)) by {
        assert forall|i: int, j: int| 0 <= i < j < paths.len() implies paths[i] != paths[j] by {
            assert(session.is_chunk_path(session.file_id(), (start + i) as usize, paths[i]));
            assert(session.is_chunk_path(session.file_id(), (start + j) as usize, paths[j]));
        }
        assert forall|k: int| 0 <= k < paths.len() implies paths[k] != plan.output_path@ by {
            assert(session.is_chunk_path(session.file_id(), (start + k) as usize, paths[k]));
        }
    }
    assert forall|k: int| 0 <= k < paths.len() implies disk.dom().contains(paths[k]) by {
        assert(session.is_chunk_path(session.file_id(), (start + k) as usize, paths[k]));
    }
    lemma_merge_joins_the_fragments(disk, plan.output_path@, paths);
    assert(contents_of(disk, paths) =~= payloads.subrange(
        start as int,
        session.total_chunks() as int,
    )) by {
        assert forall|k: int| 0 <= k < paths.len() implies contents_of(disk, paths)[k]
            == payloads[start + k] by {
            assert(session.is_chunk_path(session.file_id(), (start + k) as usize, paths[k]));
        }
    }
}

/// Whether each of `saves` is a save of a chunk of the session's file, to the chunk's fragment.
pub open spec fn saves_of<'a, F: Fn(&'a str, usize) -> String>(
    session: ChunkStrategy<'a, F>,
    saves: Seq<Save>,
) -> bool {
    forall|k: int|
        0 <= k < saves.len() ==> {
            let save = #[trigger] saves[k];
            &&& save.chunk_index < session.total_chunks()
            &&& session.is_chunk_path(session.file_id(), save.chunk_index, save.path)
        }
}

/// After saves of a file whose chunks are kept apart, the fragment of each chunk that was
/// saved holds the payload of the chunk's last save, provided that the naming function gives
/// one name to one chunk.
pub proof fn lemma_fragments_hold_the_last_payloads<'a, F: Fn(&'a str, usize) -> String>(
    session: ChunkStrategy<'a, F>,
    disk: Map<Seq<char>, Seq<u8>>,
    saves: Seq<Save>,
)
    requires
        names_each_chunk_once(session.naming()),
        keeps_chunks_apart(session),
        saves_of(session, saves),
    ensures
        forall|chunk_index: usize, path: Seq<char>|
            saved_indices(saves).contains(chunk_index as nat) && #[trigger] session.is_chunk_path(
                session.file_id(),
                chunk_index,
                path,
            ) ==> after_writes(disk, saves).dom().contains(path) && after_writes(
                disk,
                saves,
            )[path] == last_payload(saves, chunk_index),
    decreases saves.len(),
{
    if saves.len() > 0 {
        let earlier = saves.drop_last();
        let last = saves.last();
        assert(saves_of(session, earlier)) by {
            assert forall|k: int| 0 <= k < earlier.len() implies {
                let save = #[trigger] earlier[k];
                &&& save.chunk_index < session.total_chunks()
                &&& session.is_chunk_path(session.file_id(), save.chunk_index, save.path)
            } by {
                assert(earlier[k] == saves[k]);
            }
        }
        lemma_fragments_hold_the_last_payloads(session, disk, earlier);
        assert(saves[saves.len() - 1] == last);
        assert forall|chunk_index: usize, path: Seq<char>|
            saved_indices(saves).contains(chunk_index as nat) && #[trigger] session.is_chunk_path(
                session.file_id(),
                chunk_index,
                path,
            ) implies after_writes(disk, saves).dom().contains(path) && after_writes(
            disk,
            saves,
        )[path] == last_payload(saves, chunk_index) by {
            if last.chunk_index == chunk_index {
                lemma_one_path_per_chunk(
                    session,
                    session.file_id(),
                    chunk_index,
                    path,
                    last.path,
                );
            } else {
                let k = choose|k: int|
                    0 <= k < saves.len() && saved_indices(saves)[k] == chunk_index as nat;
                assert(saves[k].chunk_index == chunk_index);
                assert(saved_indices(earlier)[k] == chunk_index as nat);
                assert(path != last.path) by {
                    if chunk_index < last.chunk_index {
                        assert(!session.is_chunk_path(
                            session.file_id(),
                            last.chunk_index,
                            path,
                        ));
                    } else {
                        assert(!session.is_chunk_path(session.file_id(), chunk_index, last.path));
                    }
                }
            }
        }
    }
}

/// Once every chunk of a file has been saved, in whatever order and however often, the merge
/// of the file goes ahead, and where it meets with no failure it leaves in the output file
/// the payloads from the first chunk to merge up to the file's last, end to end and in rising
/// order of the chunks' index; of a chunk that was saved more than once, the payload of its
/// last save. This holds of files whose chunks are kept apart, and of naming functions that
/// give one name to one chunk.
pub proof fn lemma_saved_file_merges_in_order<'a, F: Fn(&'a str, usize) -> String>(
    session: ChunkStrategy<'a, F>,
    plan: MergePlan,
    files: Map<Seq<char>, Seq<bool>>,
    disk: Map<Seq<char>, Seq<u8>>,
    saves: Seq<Save>,
)
    requires
        session.start_chunk_index() < session.total_chunks(),
        names_each_chunk_once(session.naming()),
        keeps_chunks_apart(session),
        saves_of(session, saves),
        forall|chunk_index: nat|
            chunk_index < session.total_chunks() ==> saved_indices(saves).contains(chunk_index),
        session.is_merge_plan(plan),
    ensures
        merge_ready(
            after_saves(
                files,
                session.file_id()@,
                session.total_chunks() as nat,
                saved_indices(saves),
            ),
            session.file_id()@,
            session.total_chunks() as nat,
        ),
        merged(after_writes(disk, saves), plan.output_path@, plan.paths())[plan.output_path@]
            == Seq::new(
            (session.total_chunks() - session.start_chunk_index()) as nat,
            |k: int| last_payload(saves, (session.start_chunk_index() + k) as usize),
        ).flatten(),
{
    let total = session.total_chunks();
    let start = session.start_chunk_index();
    lemma_merge_ready_after_every_chunk(
        files,
        session.file_id()@,
        total as nat,
        saved_indices(saves),
    );
    let payloads = Seq::new(total as nat, |i: int| last_payload(saves, i as usize));
    lemma_fragments_hold_the_last_payloads(session, disk, saves);
    assert(holds_payloads(session, after_writes(disk, saves), payloads)) by {
        assert forall|chunk_index: usize, path: Seq<char>|
            chunk_index < total && #[trigger] session.is_chunk_path(
                session.file_id(),
                chunk_index,
                path,
            ) implies after_writes(disk, saves).dom().contains(path) && after_writes(
            disk,
            saves,
        )[path] == payloads[chunk_index as int] by {
            assert(saved_indices(saves).contains(chunk_index as nat));
        }
    }
    lemma_merged_file_is_the_payloads_in_order(session, plan, after_writes(disk, saves), payloads);
    assert(payloads.subrange(start as int, total as int) =~= Seq::new(
        (total - start) as nat,
        |k: int| last_payload(saves, (start + k) as usize),
    ));
}

} // verus!
