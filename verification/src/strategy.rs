//! The upload session of one file: where its fragments are kept, and what a save and a merge
//! come to.

use vstd::prelude::*;
use crate::error::{
    read_chunk_error, read_chunk_message, write_chunk_error, write_chunk_message,
    ChunkStrategyError, ChunkStrategyResult,
};
use crate::outcome::{MergeOutcome, StoreOutcome};
use crate::path::{join_path, joined_path};
use crate::registry::{after_merge, after_save, merge_ready, CompletionRegistry};

verus! {

/// Whether the naming function `f` may be called on every file identifier and chunk index.
pub open spec fn names_every_chunk<'a, F: Fn(&'a str, usize) -> String>(f: F) -> bool {
    forall|file_id: &'a str, chunk_index: usize| call_requires(f, (file_id, chunk_index))
}

/// Whether the text that the naming function `f` returns depends on the file identifier and
/// the chunk index alone.
pub open spec fn names_each_chunk_once<'a, F: Fn(&'a str, usize) -> String>(f: F) -> bool {
    forall|file_id: &'a str, chunk_index: usize, one: String, other: String|
        call_ensures(f, (file_id, chunk_index), one) && call_ensures(
            f,
            (file_id, chunk_index),
            other,
        ) ==> one@ == other@
}

/// One fragment that a merge reads: where the chunk with this index is kept.
#[derive(Debug, PartialEq, Eq)]
pub struct Fragment {
    pub chunk_index: usize,
    pub path: String,
}

/// What a merge has to do, in this order: open `output_path` afresh, then append to it what
/// each of `fragments` holds, removing each fragment once it has been appended.
#[derive(Debug, PartialEq, Eq)]
pub struct MergePlan {
    pub output_path: String,
    pub fragments: Vec<Fragment>,
}

impl MergePlan {
    /// The paths of the fragments, in the plan's order.
    pub open spec fn paths(&self) -> Seq<Seq<char>> {
        Seq::new(self.fragments@.len(), |k: int| self.fragments@[k].path@)
    }
}

/// One upload session: the chunks of one file, kept as fragments under one directory until
/// they are merged into the file.
///
/// The session decides and touches no disk. Its caller stores and reads the fragments at the
/// paths that the session gives, and tells the session how that ended.
pub struct ChunkStrategy<'a, F: Fn(&'a str, usize) -> String> {
    upload_dir: &'a str,
    start_chunk_index: usize,
    file_id: &'a str,
    file_name: &'a str,
    total_chunks: usize,
    file_name_func: F,
}

impl<'a, F: Fn(&'a str, usize) -> String> ChunkStrategy<'a, F> {
    /// The first chunk to merge is one of the file's chunks, and the naming function can be
    /// called.
    #[verifier::type_invariant]
    spec fn well_formed(&self) -> bool {
        &&& self.start_chunk_index < self.total_chunks
        &&& names_every_chunk(self.file_name_func)
    }

    /// What `upload_dir` returns.
    pub closed spec fn spec_upload_dir(&self) -> &'a str {
        self.upload_dir
    }

    /// What `file_id` returns.
    pub closed spec fn spec_file_id(&self) -> &'a str {
        self.file_id
    }

    /// What `file_name` returns.
    pub closed spec fn spec_file_name(&self) -> &'a str {
        self.file_name
    }

    /// What `start_chunk_index` returns.
    pub closed spec fn spec_start_chunk_index(&self) -> usize {
        self.start_chunk_index
    }

    /// What `total_chunks` returns.
    pub closed spec fn spec_total_chunks(&self) -> usize {
        self.total_chunks
    }

    /// The session's naming function.
    pub closed spec fn naming(&self) -> F {
        self.file_name_func
    }

    /// Whether `path` is where the fragment of chunk `chunk_index` of `file_id` is kept: under
    /// the upload directory, by a name that the naming function returns for the chunk.
    pub open spec fn is_chunk_path(
        &self,
        file_id: &'a str,
        chunk_index: usize,
        path: Seq<char>,
    ) -> bool {
        exists|name: String|
            call_ensures(self.naming(), (file_id, chunk_index), name) && path == joined_path(
                self.upload_dir()@,
                name@,
            )
    }

    /// Where the merged file goes: under the upload directory, by the file's name.
    pub open spec fn output_path(&self) -> Seq<char> {
        joined_path(self.upload_dir()@, self.file_name()@)
    }

    /// Whether `plan` is the session's merge plan: it puts the merged file under the upload
    /// directory, and lists the fragments from the first chunk to merge up to the file's
    /// last, one each, in rising order of their index.
    pub open spec fn is_merge_plan(&self, plan: MergePlan) -> bool {
        &&& plan.output_path@ == self.output_path()
        &&& plan.fragments@.len() == self.total_chunks() - self.start_chunk_index()
        &&& forall|k: int|
            0 <= k < plan.fragments@.len() ==> {
                let fragment = #[trigger] plan.fragments@[k];
                &&& fragment.chunk_index == self.start_chunk_index() + k
                &&& self.is_chunk_path(self.file_id(), fragment.chunk_index, fragment.path@)
            }
    }

    /// Sets up the session of the file `file_id`, which comes in `total_chunks` chunks and is
    /// merged from chunk `start_chunk_index` on. The first chunk to merge must be one of the
    /// file's chunks; whatever else is given is taken as it is.
    pub fn new(
        start_chunk_index: usize,
        upload_dir: &'a str,
        file_id: &'a str,
        file_name: &'a str,
        total_chunks: usize,
        file_name_func: F,
    ) -> (created: Result<Self, ChunkStrategyError>)
        requires
            names_every_chunk(file_name_func),
        ensures
            start_chunk_index < total_chunks ==> created is Ok,
            start_chunk_index >= total_chunks ==> created == Err::<Self, ChunkStrategyError>(
                ChunkStrategyError::IndexOutOfBounds(start_chunk_index, total_chunks),
            ),
            created matches Ok(session) ==> {
                &&& session.start_chunk_index() == start_chunk_index
                &&& session.upload_dir() == upload_dir
                &&& session.file_id() == file_id
                &&& session.file_name() == file_name
                &&& session.total_chunks() == total_chunks
                &&& session.naming() == file_name_func
            },
    {
        if start_chunk_index >= total_chunks {
            return Err(ChunkStrategyError::IndexOutOfBounds(start_chunk_index, total_chunks));
        }
        Ok(
            Self {
                upload_dir,
                start_chunk_index,
                file_id,
                file_name,
                total_chunks,
                file_name_func,
            },
        )
    }

    /// The name of the fragment of chunk `chunk_index` of `file_id`: what the naming function
    /// returns for the two.
    pub fn get_chunk_json_path(&self, file_id: &'a str, chunk_index: usize) -> (name: String)
        ensures
            call_ensures(self.naming(), (file_id, chunk_index), name),
    {
        proof {
            use_type_invariant(self);
        }
        (self.file_name_func)(file_id, chunk_index)
    }

    /// The path of the fragment of chunk `chunk_index` of `file_id`: its name, joined to the
    /// upload directory.
    pub fn get_chunk_path(&self, file_id: &'a str, chunk_index: usize) -> (path: String)
        ensures
            self.is_chunk_path(file_id, chunk_index, path@),
    {
        let name = self.get_chunk_json_path(file_id, chunk_index);
        let path = join_path(self.upload_dir, name.as_str());
        assert(call_ensures(self.naming(), (file_id, chunk_index), name) && path@ == joined_path(
            self.upload_dir()@,
            name@,
        ));
        path
    }

    /// Closes the save of chunk `chunk_index` of the session's file, once the attempt to
    /// store its payload has ended as `stored` says. A payload that was not stored leaves
    /// `registry` as it was. One that was stored is recorded there, unless the file has no
    /// chunk of that index: the fragment is then on disk all the same.
    pub fn record_chunk(
        &self,
        registry: &mut CompletionRegistry,
        chunk_index: usize,
        stored: StoreOutcome,
    ) -> (recorded: ChunkStrategyResult)
        ensures
            match stored {
                StoreOutcome::Stored => {
                    &&& final(registry)@ == after_save(
                        old(registry)@,
                        self.file_id()@,
                        self.total_chunks() as nat,
                        chunk_index as nat,
                    )
                    &&& chunk_index < self.total_chunks() ==> recorded is Ok
                    &&& chunk_index >= self.total_chunks() ==> recorded == Err::<
                        (),
                        ChunkStrategyError,
                    >(ChunkStrategyError::IndexOutOfBounds(chunk_index, self.total_chunks()))
                },
                StoreOutcome::DirectoryFailed(detail) => {
                    &&& final(registry)@ == old(registry)@
                    &&& recorded matches Err(ChunkStrategyError::CreateDirectory(message))
                    &&& message@ == detail@
                },
                StoreOutcome::WriteFailed(detail) => {
                    &&& final(registry)@ == old(registry)@
                    &&& recorded matches Err(ChunkStrategyError::WriteChunk(message))
                    &&& exists|chunk_path: Seq<char>|
                        self.is_chunk_path(self.file_id(), chunk_index, chunk_path) && message@
                            == write_chunk_message(chunk_path, detail@)
                },
            },
    {
        match stored {
            StoreOutcome::Stored => registry.mark_saved(
                self.file_id,
                self.total_chunks,
                chunk_index,
            ),
            StoreOutcome::DirectoryFailed(detail) => Err(
                ChunkStrategyError::CreateDirectory(detail),
            ),
            StoreOutcome::WriteFailed(detail) => {
                let chunk_path = self.get_chunk_path(self.file_id, chunk_index);
                Err(write_chunk_error(chunk_path.as_str(), detail.as_str()))
            },
        }
    }

    /// Decides whether the session's file can be merged and, where it can, says how: the
    /// fragments from the first chunk to merge up to the file's last, in rising order of
    /// their index. Where a chunk is still missing, no plan is given.
    pub fn prepare_merge(&self, registry: &mut CompletionRegistry) -> (prepared: Result<
        MergePlan,
        ChunkStrategyError,
    >)
        ensures
            final(registry)@ == after_merge(
                old(registry)@,
                self.file_id()@,
                self.total_chunks() as nat,
            ),
            merge_ready(old(registry)@, self.file_id()@, self.total_chunks() as nat)
                ==> prepared is Ok,
            !merge_ready(old(registry)@, self.file_id()@, self.total_chunks() as nat)
                ==> prepared == Err::<MergePlan, ChunkStrategyError>(ChunkStrategyError::Merge),
            prepared matches Ok(plan) ==> self.is_merge_plan(plan),
    {
        proof {
            use_type_invariant(self);
        }
        match registry.begin_merge(self.file_id, self.total_chunks) {
            Err(refused) => {
                return Err(refused);
            },
            Ok(()) => {},
        }
        let output_path = join_path(self.upload_dir, self.file_name);
        let mut fragments: Vec<Fragment> = Vec::new();
        let mut chunk_index: usize = self.start_chunk_index;
        while chunk_index < self.total_chunks
            invariant
                self.start_chunk_index <= chunk_index <= self.total_chunks,
                fragments@.len() == chunk_index - self.start_chunk_index,
                forall|k: int|
                    0 <= k < fragments@.len() ==> {
                        let fragment = #[trigger] fragments@[k];
                        &&& fragment.chunk_index == self.start_chunk_index + k
                        &&& self.is_chunk_path(self.file_id, fragment.chunk_index, fragment.path@)
                    },
            decreases self.total_chunks - chunk_index,
        {
            let path = self.get_chunk_path(self.file_id, chunk_index);
            fragments.push(Fragment { chunk_index, path });
            chunk_index += 1;
        }
        Ok(MergePlan { output_path, fragments })
    }

    /// Closes a merge of the session's file, once carrying out its plan has ended as `merged`
    /// says.
    pub fn finish_merge(&self, merged: MergeOutcome) -> (finished: ChunkStrategyResult)
        ensures
            match merged {
                MergeOutcome::Merged => finished is Ok,
                MergeOutcome::OutputFailed(detail) => {
                    &&& finished matches Err(ChunkStrategyError::CreateOutputFile(message))
                    &&& message@ == detail@
                },
                MergeOutcome::ReadFailed(chunk_index, detail) => {
                    &&& finished matches Err(ChunkStrategyError::ReadChunk(message))
                    &&& exists|chunk_path: Seq<char>|
                        self.is_chunk_path(self.file_id(), chunk_index, chunk_path) && message@
                            == read_chunk_message(chunk_path, detail@)
                },
                MergeOutcome::AppendFailed(detail) => {
                    &&& finished matches Err(ChunkStrategyError::WriteOutput(message))
                    &&& message@ == detail@
                },
            },
    {
        match merged {
            MergeOutcome::Merged => Ok(()),
            MergeOutcome::OutputFailed(detail) => Err(ChunkStrategyError::CreateOutputFile(detail)),
            MergeOutcome::ReadFailed(chunk_index, detail) => {
                let chunk_path = self.get_chunk_path(self.file_id, chunk_index);
                Err(read_chunk_error(chunk_path.as_str(), detail.as_str()))
            },
            MergeOutcome::AppendFailed(detail) => Err(ChunkStrategyError::WriteOutput(detail)),
        }
    }

    /// The directory that holds the fragments and the merged file.
    #[verifier::when_used_as_spec(spec_upload_dir)]
    pub fn upload_dir(&self) -> (upload_dir: &'a str)
        ensures
            upload_dir == self.spec_upload_dir(),
    {
        self.upload_dir
    }

    /// The identifier of the session's file.
    #[verifier::when_used_as_spec(spec_file_id)]
    pub fn file_id(&self) -> (file_id: &'a str)
        ensures
            file_id == self.spec_file_id(),
    {
        self.file_id
    }

    /// The name of the merged file.
    #[verifier::when_used_as_spec(spec_file_name)]
    pub fn file_name(&self) -> (file_name: &'a str)
        ensures
            file_name == self.spec_file_name(),
    {
        self.file_name
    }

    /// The first chunk that a merge takes in. It is one of the file's chunks.
    #[verifier::when_used_as_spec(spec_start_chunk_index)]
    pub fn start_chunk_index(&self) -> (start_chunk_index: usize)
        ensures
            start_chunk_index == self.spec_start_chunk_index(),
            start_chunk_index < self.spec_total_chunks(),
    {
        proof {
            use_type_invariant(self);
        }
        self.start_chunk_index
    }

    /// The number of chunks that the file comes in. There is one at least.
    #[verifier::when_used_as_spec(spec_total_chunks)]
    pub fn total_chunks(&self) -> (total_chunks: usize)
        ensures
            total_chunks == self.spec_total_chunks(),
            total_chunks > self.spec_start_chunk_index(),
    {
        proof {
            use_type_invariant(self);
        }
        self.total_chunks
    }
}

} // verus!
