//! Values that the parts of the indexer exchange.

use crate::path::HostPath;
use vstd::prelude::*;

verus! {

/// Where an index stands.
#[derive(Debug, Clone, Copy, PartialEq, Eq, Structural)]
pub enum IndexState {
    Idle,
    Indexing,
    Completed,
    Failed,
}

/// How far an index has come.
#[derive(Debug, Clone, Copy, PartialEq, Eq, Structural)]
pub struct IndexStatus {
    pub total_files: usize,
    pub processed_files: usize,
    pub total_chunks: usize,
    pub embeddings_generated: usize,
    pub vectors_inserted: usize,
    pub status: IndexState,
}

/// A status with nothing counted.
pub open spec fn nothing_counted(state: IndexState) -> IndexStatus {
    IndexStatus {
        total_files: 0,
        processed_files: 0,
        total_chunks: 0,
        embeddings_generated: 0,
        vectors_inserted: 0,
        status: state,
    }
}

impl Default for IndexStatus {
    fn default() -> (r: Self)
        ensures
            r == nothing_counted(IndexState::Idle),
    {
        IndexStatus::of(IndexState::Idle)
    }
}

impl IndexStatus {
    /// A status with nothing counted.
    pub fn of(state: IndexState) -> (r: Self)
        ensures
            r == nothing_counted(state),
    {
        IndexStatus {
            total_files: 0,
            processed_files: 0,
            total_chunks: 0,
            embeddings_generated: 0,
            vectors_inserted: 0,
            status: state,
        }
    }
}

/// A piece of a source file.
#[derive(Debug)]
pub struct CodeChunk {
    pub id: String,
    pub content: String,
    pub file_path: HostPath,
    pub relative_path: String,
    pub start_line: u32,
    pub end_line: u32,
    pub language: String,
}

/// An embedding, as the bits of its numbers.
#[derive(Debug)]
pub struct EmbeddingVector {
    pub vector: Vec<u32>,
}

/// A status with nothing counted has its state and only zeros.
pub proof fn law_nothing_counted_is_zero(state: IndexState)
    ensures
        nothing_counted(state).status == state,
        nothing_counted(state).total_files == 0,
        nothing_counted(state).processed_files == 0,
        nothing_counted(state).total_chunks == 0,
        nothing_counted(state).embeddings_generated == 0,
        nothing_counted(state).vectors_inserted == 0,
{
}

} // verus!
