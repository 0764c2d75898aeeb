//! How an index status changes as a run fails, is refused or completes, and what
//! becomes of its record on disk.

use crate::types::{IndexState, IndexStatus};
use vstd::prelude::*;

verus! {

/// What is to happen to the status record on disk.
#[derive(Debug, Clone, Copy, PartialEq, Eq, Structural)]
pub enum Persist {
    Keep,
    Write(IndexStatus),
    Remove,
}

/// The record on disk, after `persist` was carried out on `record`.
pub open spec fn recorded(persist: Persist, record: Option<IndexStatus>) -> Option<IndexStatus> {
    match persist {
        Persist::Keep => record,
        Persist::Write(status) => Some(status),
        Persist::Remove => None,
    }
}

/// The persist that leaves exactly `record` on disk.
pub open spec fn restoring(record: Option<IndexStatus>) -> Persist {
    match record {
        Some(status) => Persist::Write(status),
        None => Persist::Remove,
    }
}

pub open spec fn larger(a: usize, b: usize) -> usize {
    if a >= b {
        a
    } else {
        b
    }
}

/// A status whose run failed. Evidence of what was stored before keeps the
/// counts of embeddings and vectors from going below it.
pub open spec fn failed(status: IndexStatus, evidence: Option<IndexStatus>) -> IndexStatus {
    match evidence {
        None => IndexStatus { status: IndexState::Failed, ..status },
        Some(previous) => IndexStatus {
            status: IndexState::Failed,
            vectors_inserted: larger(status.vectors_inserted, previous.vectors_inserted),
            embeddings_generated: larger(
                status.embeddings_generated,
                previous.embeddings_generated,
            ),
            ..status
        },
    }
}

/// A status whose run completed with the given counts.
pub open spec fn completed(
    status: IndexStatus,
    chunks: usize,
    embeddings: usize,
    vectors: usize,
) -> IndexStatus {
    IndexStatus {
        total_files: status.total_files,
        processed_files: status.total_files,
        total_chunks: chunks,
        embeddings_generated: embeddings,
        vectors_inserted: vectors,
        status: IndexState::Completed,
    }
}

/// The number of vectors that a completed index reports, unless it is zero.
pub open spec fn completed_vectors(status: IndexStatus) -> Option<usize> {
    if status.status == IndexState::Completed && status.vectors_inserted > 0 {
        Some(status.vectors_inserted)
    } else {
        None
    }
}

/// A row count as far as `usize` reaches.
pub open spec fn capped(row_count: u64) -> usize {
    if row_count <= usize::MAX {
        row_count as usize
    } else {
        usize::MAX
    }
}

/// Evidence to preserve on failure: the status before the run, unless the run
/// dropped the collection, in which case partial counts are the truth.
pub fn failure_evidence(full_reindex: bool, previous: Option<IndexStatus>) -> (r: Option<
    IndexStatus,
>)
    ensures
        r == if full_reindex {
            None
        } else {
            previous
        },
{
    if full_reindex {
        None
    } else {
        previous
    }
}

/// Marks a run as failed after it began to change the index.
pub fn update_status_failed(status: &mut IndexStatus, prior_evidence: Option<IndexStatus>) -> (r:
    Persist)
    ensures
        *final(status) == failed(*old(status), prior_evidence),
        r == Persist::Write(*final(status)),
{
    status.status = IndexState::Failed;
    if let Some(previous) = prior_evidence {
        if status.vectors_inserted < previous.vectors_inserted {
            status.vectors_inserted = previous.vectors_inserted;
        }
        if status.embeddings_generated < previous.embeddings_generated {
            status.embeddings_generated = previous.embeddings_generated;
        }
    }
    Persist::Write(*status)
}

/// Marks a run as failed that was refused before it changed anything. The record
/// on disk goes back to what it was before the run.
pub fn refuse_before_mutation(
    status: &mut IndexStatus,
    previous_status: Option<IndexStatus>,
) -> (r: Persist)
    ensures
        *final(status) == failed(*old(status), None),
        r == restoring(previous_status),
{
    status.status = IndexState::Failed;
    match previous_status {
        Some(previous) => Persist::Write(previous),
        None => Persist::Remove,
    }
}

/// Marks a run as completed with the given counts.
pub fn update_status_completed_counts(
    status: &mut IndexStatus,
    chunks: usize,
    embeddings_generated: usize,
    vectors_inserted: usize,
) -> (r: Persist)
    ensures
        *final(status) == completed(
            *old(status),
            chunks,
            embeddings_generated,
            vectors_inserted,
        ),
        r == Persist::Write(*final(status)),
{
    status.total_chunks = chunks;
    status.processed_files = status.total_files;
    status.embeddings_generated = embeddings_generated;
    status.vectors_inserted = vectors_inserted;
    status.status = IndexState::Completed;
    Persist::Write(*status)
}

/// The number of vectors that a completed index reports, unless it is zero.
pub fn completed_vector_count(status: &IndexStatus) -> (r: Option<usize>)
    ensures
        r == completed_vectors(*status),
{
    if status.status == IndexState::Completed && status.vectors_inserted > 0 {
        Some(status.vectors_inserted)
    } else {
        None
    }
}

/// A row count as far as `usize` reaches.
pub fn checked_vector_row_count(row_count: u64) -> (r: usize)
    ensures
        r == capped(row_count),
{
    if row_count <= usize::MAX as u64 {
        row_count as usize
    } else {
        usize::MAX
    }
}

/// Progress while files are being split: every tenth file moves the count of
/// processed files, on disk too.
pub fn split_progress(status: &mut IndexStatus, count: usize) -> (r: Persist)
    ensures
        count % 10 == 0 ==> *final(status) == (IndexStatus {
            processed_files: count,
            ..*old(status)
        }) && r == Persist::Write(*final(status)),
        count % 10 != 0 ==> *final(status) == *old(status) && r == Persist::Keep,
{
    if count % 10 == 0 {
        status.processed_files = count;
        Persist::Write(*status)
    } else {
        Persist::Keep
    }
}

/// The record that is put back is the one from before, and what is written is what
/// is then on disk.
pub proof fn law_restoring_gives_the_record_back(
    record: Option<IndexStatus>,
    other: Option<IndexStatus>,
    status: IndexStatus,
)
    ensures
        recorded(restoring(record), other) == record,
        recorded(Persist::Write(status), other) == Some(status),
        recorded(Persist::Keep, other) == other,
        recorded(Persist::Remove, other) is None,
{
}

/// A failed status keeps its counts; evidence from before raises those of embeddings
/// and vectors, and nothing else.
pub proof fn law_failed_status_keeps_the_larger_counts(
    status: IndexStatus,
    evidence: Option<IndexStatus>,
)
    ensures
        ({
            let then = failed(status, evidence);
            &&& then.status == IndexState::Failed
            &&& then.total_files == status.total_files
            &&& then.processed_files == status.processed_files
            &&& then.total_chunks == status.total_chunks
            &&& evidence is None ==> then.vectors_inserted == status.vectors_inserted
                && then.embeddings_generated == status.embeddings_generated
            &&& evidence is Some ==> then.vectors_inserted == vstd::math::max(
                status.vectors_inserted as int,
                evidence->0.vectors_inserted as int,
            ) && then.embeddings_generated == vstd::math::max(
                status.embeddings_generated as int,
                evidence->0.embeddings_generated as int,
            )
        }),
{
}

/// A completed status has the given counts, and all its files processed.
pub proof fn law_completed_status_has_the_counts(
    status: IndexStatus,
    chunks: usize,
    embeddings: usize,
    vectors: usize,
)
    ensures
        ({
            let then = completed(status, chunks, embeddings, vectors);
            &&& then.status == IndexState::Completed
            &&& then.total_files == status.total_files
            &&& then.processed_files == status.total_files
            &&& then.total_chunks == chunks
            &&& then.embeddings_generated == embeddings
            &&& then.vectors_inserted == vectors
            &&& vectors > 0 ==> completed_vectors(then) == Some(vectors)
            &&& vectors == 0 ==> completed_vectors(then) is None
        }),
{
}

/// Only a completed status tells how many vectors there are.
pub proof fn law_only_a_completed_status_tells_vectors(status: IndexStatus)
    ensures
        completed_vectors(status) is Some <==> status.status == IndexState::Completed
            && status.vectors_inserted != 0,
        completed_vectors(status) is Some ==> completed_vectors(status)->0
            == status.vectors_inserted,
{
}

/// A row count is kept as far as it can be held, and never grows.
pub proof fn law_row_count_is_kept_as_far_as_it_fits(rows: u64, more: u64)
    ensures
        capped(rows) <= rows,
        rows <= usize::MAX ==> capped(rows) == rows,
        rows > usize::MAX ==> capped(rows) == usize::MAX,
        rows <= more ==> capped(rows) <= capped(more),
{
}

/// What is kept as evidence of what was stored: the status from before, unless the run
/// rebuilds, in which case its own counts are the truth.
pub proof fn law_rebuild_keeps_no_evidence(
    full_reindex: bool,
    previous: Option<IndexStatus>,
    r: Option<IndexStatus>,
)
    requires
        call_ensures(failure_evidence, (full_reindex, previous), r),
    ensures
        full_reindex ==> r is None,
        !full_reindex ==> r == previous,
{
}

} // verus!
