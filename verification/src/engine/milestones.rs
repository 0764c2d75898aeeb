//! What every run was told before it came where it is: nothing is decided without
//! the answer that calls for it, and no answer that calls for something is passed
//! over.

use crate::engine::control::{
    ask_of, before, fill_step, gate_step, plan_step, prepare_step, started, step, unread_step, Ask,
    DiffFact, Failure, ManifestFact, Mode, Outcome, Phase, RecordFact, Refusal, RunControl, Signal,
};
use crate::engine::history::{
    after, answered, asked, changes, distance, failed_late, first_record, law_counts_sum_up_the_batches,
    law_ended_run_has_a_final_status, law_run_keeps_its_mode, law_success_stored_vectors, next, record_after, refused,
    stored_embeddings, stored_vectors, succeeded,
};
use crate::engine::status::{recorded, Persist};
use crate::types::{IndexState, IndexStatus};
use vstd::prelude::*;

verus! {

/// What was asked and answered so far.
type Heard = spec_fn(Ask, Signal) -> bool;

spec fn at_gate(phase: Phase) -> bool {
    match phase {
        Phase::LexicalGate | Phase::CollectionGate | Phase::RecordGate | Phase::BackendGate => true,
        _ => false,
    }
}

spec fn before_walk(phase: Phase) -> bool {
    match phase {
        Phase::LexicalGate | Phase::CollectionGate | Phase::RecordGate | Phase::BackendGate => true,
        Phase::Walk => true,
        _ => false,
    }
}

spec fn undiffed(phase: Phase) -> bool {
    before_walk(phase) || phase == Phase::Manifest || phase == Phase::Diff
}

spec fn up_to_date(phase: Phase) -> bool {
    phase == Phase::RowsUpToDate || phase == Phase::RecordUpToDate || phase == Phase::Finished(
        Outcome::UpToDate,
    )
}

spec fn preparing(phase: Phase) -> bool {
    match phase {
        Phase::FindOld | Phase::DropOld | Phase::FindCurrent | Phase::Create => true,
        Phase::PrepareLexical => true,
        _ => false,
    }
}

spec fn unread(phase: Phase) -> bool {
    match phase {
        Phase::ManifestOnly | Phase::RowsOnly | Phase::RecordOnly => true,
        Phase::Finished(Outcome::NothingToRead) => true,
        _ => false,
    }
}

spec fn chunked(phase: Phase) -> bool {
    match phase {
        Phase::Populate | Phase::RowsAfter | Phase::ManifestAfter | Phase::RecordAfter => true,
        Phase::Finished(Outcome::Indexed) => true,
        _ => false,
    }
}

spec fn reading(phase: Phase) -> bool {
    unread(phase) || phase == Phase::Split || chunked(phase)
}

spec fn prepared(phase: Phase) -> bool {
    phase == Phase::DeleteVectors || reading(phase)
}

/// Whether the run was told that there is nothing to build on.
spec fn told_to_rebuild(c: RunControl, heard: Heard) -> bool {
    c.mode == Mode::Rebuild || heard(Ask::LoadManifest, Signal::Manifest(ManifestFact::Absent))
        || heard(Ask::LoadManifest, Signal::Manifest(ManifestFact::Incompatible)) || (
    c.embeddings_enabled && c.diff is Some && heard(
        Ask::HasCollection,
        Signal::Collection(Some(false)),
    ))
}

/// The count that rows come to.
spec fn count_of(rows: u64) -> int {
    if rows <= usize::MAX {
        rows as int
    } else {
        usize::MAX as int
    }
}

/// What was told of files, manifest and comparison.
spec fn plan_stands(c: RunControl, heard: Heard) -> bool {
    &&& (c.phase == Phase::Manifest || c.phase == Phase::Diff || c.phase == Phase::CollectionCheck
        || up_to_date(c.phase) || preparing(c.phase) || prepared(c.phase)) ==> heard(
        Ask::WalkFiles,
        Signal::Walked(Some(c.total_files)),
    )
    &&& forall|files: usize| #[trigger]
        heard(Ask::WalkFiles, Signal::Walked(Some(files))) ==> c.total_files == files
            && !before_walk(c.phase)
    &&& forall|diff: DiffFact| #[trigger]
        heard(Ask::DiffManifest, Signal::Diff(Some(diff))) ==> c.diff == Some(diff) && !undiffed(
            c.phase,
        )
    &&& forall|fact: ManifestFact, other: ManifestFact|
        #![trigger heard(Ask::LoadManifest, Signal::Manifest(fact)), heard(Ask::LoadManifest, Signal::Manifest(other))]
        heard(Ask::LoadManifest, Signal::Manifest(fact)) && heard(
            Ask::LoadManifest,
            Signal::Manifest(other),
        ) ==> fact == other
    &&& undiffed(c.phase) ==> c.diff is None && !c.full_reindex && !c.stale
    &&& before_walk(c.phase) || c.phase == Phase::Manifest ==> (forall|fact: ManifestFact|
        !#[trigger] heard(Ask::LoadManifest, Signal::Manifest(fact)))
    &&& c.diff is Some ==> heard(Ask::DiffManifest, Signal::Diff(c.diff))
    &&& c.full_reindex ==> told_to_rebuild(c, heard) && c.mode != Mode::Update && c.selected_files
        == c.total_files && !c.stale
    &&& c.phase == Phase::Diff || c.phase == Phase::CollectionCheck || up_to_date(c.phase)
        || c.diff is Some ==> c.mode != Mode::Rebuild && heard(
        Ask::LoadManifest,
        Signal::Manifest(ManifestFact::Compatible),
    ) && !heard(Ask::LoadManifest, Signal::Manifest(ManifestFact::Absent)) && !heard(
        Ask::LoadManifest,
        Signal::Manifest(ManifestFact::Incompatible),
    )
    &&& c.phase == Phase::CollectionCheck ==> c.diff is Some && !c.full_reindex && !c.stale
    &&& up_to_date(c.phase) ==> c.diff is Some && c.diff->0.empty && !c.full_reindex
    &&& (preparing(c.phase) || prepared(c.phase)) && !c.full_reindex ==> c.diff is Some
        && !c.diff->0.empty && c.selected_files == c.diff->0.changed_files && c.stale
        == c.diff->0.stale
    &&& c.embeddings_enabled && (up_to_date(c.phase) || ((preparing(c.phase) || prepared(c.phase))
        && !c.full_reindex)) ==> heard(Ask::HasCollection, Signal::Collection(Some(true)))
    &&& (c.phase == Phase::FindOld || c.phase == Phase::DropOld) ==> c.full_reindex
    &&& (c.phase == Phase::FindOld || c.phase == Phase::DropOld || c.phase == Phase::FindCurrent
        || c.phase == Phase::Create || c.phase == Phase::DeleteVectors || c.phase
        == Phase::CollectionCheck) ==> c.embeddings_enabled
}

/// What was told of the index that the run works on.
spec fn work_stands(c: RunControl, heard: Heard) -> bool {
    &&& prepared(c.phase) ==> heard(
        Ask::PrepareLexical { clear: c.full_reindex },
        Signal::Done(true),
    )
    &&& c.phase == Phase::DeleteVectors ==> c.stale && c.embeddings_enabled
    &&& reading(c.phase) && c.stale && c.embeddings_enabled ==> heard(
        Ask::DeleteStaleVectors,
        Signal::Done(true),
    )
    &&& !(c.stale && c.embeddings_enabled) || undiffed(c.phase) || preparing(c.phase) || c.phase
        == Phase::CollectionCheck || up_to_date(c.phase) ==> (forall|reply: Signal|
        !#[trigger] heard(Ask::DeleteStaleVectors, reply))
    &&& c.full_reindex && c.embeddings_enabled && (c.phase == Phase::FindCurrent || c.phase
        == Phase::Create || c.phase == Phase::PrepareLexical || prepared(c.phase)) ==> heard(
        Ask::HasCollection,
        Signal::Collection(Some(false)),
    ) || heard(Ask::DropCollection, Signal::Done(true))
    &&& c.embeddings_enabled && (c.phase == Phase::PrepareLexical || prepared(c.phase)) ==> heard(
        Ask::HasCollection,
        Signal::Collection(Some(true)),
    ) || heard(Ask::CreateCollection, Signal::Done(true))
    &&& unread(c.phase) ==> c.selected_files == 0
    &&& c.phase == Phase::Split || chunked(c.phase) ==> c.selected_files > 0
    &&& chunked(c.phase) ==> heard(Ask::SplitFiles, Signal::Chunked(c.chunks))
    &&& !chunked(c.phase) && !(c.phase is Finished) ==> c.chunks == 0
    &&& forall|chunks: usize| #[trigger]
        heard(Ask::SplitFiles, Signal::Chunked(chunks)) ==> c.chunks == chunks && (chunked(c.phase)
            || c.phase is Finished)
    &&& (c.phase == Phase::RowsAfter || c.phase == Phase::ManifestAfter || c.phase
        == Phase::RecordAfter || c.phase == Phase::Finished(Outcome::Indexed)) ==> heard(
        Ask::Populate { embed: c.embeddings_enabled && c.chunks > 0 },
        Signal::Populated { lexical_stored: true },
    )
    &&& c.batch_failed <==> heard(Ask::Populate { embed: true }, Signal::BatchFailed)
    &&& (c.phase == Phase::RowsOnly || c.phase == Phase::RecordOnly || c.phase == Phase::RecordAfter)
        ==> heard(
        Ask::WriteManifest { cached_fingerprints: c.diff is Some },
        Signal::Done(true),
    )
}

/// What the shown status and the counts come from.
spec fn status_stands(c: RunControl, record: Option<IndexStatus>, heard: Heard) -> bool {
    &&& !c.embeddings_enabled ==> c.vectors == 0 && c.embeddings == 0 && c.phase
        != Phase::RowsUpToDate && c.phase != Phase::RecordUpToDate && c.phase != Phase::RowsOnly
        && c.phase != Phase::RecordOnly && c.phase != Phase::RowsAfter && c.phase
        != Phase::RecordAfter && c.phase != Phase::DeleteVectors && c.phase
        != Phase::CollectionCheck
    &&& (c.phase == Phase::RecordOnly || c.phase == Phase::Finished(Outcome::NothingToRead))
        && c.embeddings_enabled ==> (c.vectors == 0 && heard(Ask::CountRows, Signal::Rows(None)))
        || exists|rows: u64|
            c.vectors == count_of(rows) && #[trigger] heard(Ask::CountRows, Signal::Rows(Some(rows)))
    &&& (c.phase == Phase::RecordUpToDate || c.phase == Phase::Finished(Outcome::UpToDate))
        && c.embeddings_enabled ==> {
        ||| before(c).status == IndexState::Completed && before(c).vectors_inserted > 0
            && c.vectors == before(c).vectors_inserted
        ||| !(before(c).status == IndexState::Completed && before(c).vectors_inserted > 0)
            && c.vectors == before(c).vectors_inserted && heard(Ask::CountRows, Signal::Rows(None))
        ||| !(before(c).status == IndexState::Completed && before(c).vectors_inserted > 0) && (
        exists|rows: u64|
            c.vectors == count_of(rows) && #[trigger] heard(
                Ask::CountRows,
                Signal::Rows(Some(rows)),
            ))
    }
    &&& c.phase == Phase::RowsUpToDate ==> !(before(c).status == IndexState::Completed && before(
        c,
    ).vectors_inserted > 0)
    &&& (undiffed(c.phase) || preparing(c.phase) || c.phase == Phase::DeleteVectors || c.phase
        == Phase::CollectionCheck || c.phase == Phase::RowsUpToDate) ==> c.vectors == 0
        && c.embeddings == 0 && c.status.vectors_inserted == 0 && c.status.embeddings_generated == 0
        && c.status.total_chunks == 0 && c.status.total_files == 0 && c.status.processed_files == 0
        && c.status.status == IndexState::Indexing && record == Some(c.status)
    &&& unread(c.phase) && !(c.phase is Finished) ==> c.embeddings == 0
        && c.status.vectors_inserted == 0 && c.status.embeddings_generated == 0
        && c.status.total_chunks == 0 && c.status.total_files == 0
    &&& c.phase == Phase::Split || (unread(c.phase) && !(c.phase is Finished)) ==> record is Some
        && record->0.status == IndexState::Indexing && record->0.vectors_inserted == 0
        && record->0.embeddings_generated == 0 && record->0.total_chunks == 0
    &&& c.phase == Phase::Split ==> c.status.vectors_inserted == 0 && c.status.embeddings_generated
        == 0 && c.status.total_chunks == 0 && c.vectors == 0 && c.embeddings == 0
        && c.status.total_files == c.selected_files && c.status.status == IndexState::Indexing
    &&& chunked(c.phase) && !(c.phase is Finished) ==> c.status.total_files == c.selected_files
        && c.status.processed_files == c.selected_files && c.status.total_chunks == c.chunks
        && c.status.vectors_inserted == c.vectors && c.status.embeddings_generated == c.embeddings
        && c.status.status == IndexState::Indexing && record == Some(c.status)
    &&& c.phase == Phase::Finished(Outcome::NothingToRead) ==> c.status.total_chunks == c.vectors
        && c.status.embeddings_generated == c.vectors && c.status.vectors_inserted == c.vectors
        && c.status.total_files == c.total_files && c.status.processed_files == c.total_files
    &&& c.phase == Phase::Finished(Outcome::Indexed) ==> c.status.vectors_inserted == c.vectors
        && c.status.total_files == c.total_files && c.status.processed_files == c.total_files
    &&& c.phase == Phase::Finished(Outcome::Indexed) && (!c.embeddings_enabled || c.full_reindex)
        ==> c.status.total_chunks == c.chunks && c.status.embeddings_generated == c.embeddings
    &&& c.phase == Phase::Finished(Outcome::Indexed) && c.embeddings_enabled && !c.full_reindex
        ==> c.status.total_chunks == c.vectors && c.status.embeddings_generated == c.vectors
    &&& c.phase == Phase::Finished(Outcome::UpToDate) || c.phase == Phase::RecordUpToDate
        ==> c.status.vectors_inserted == c.vectors && c.status.total_chunks == before(
        c,
    ).total_chunks && c.status.embeddings_generated == before(c).embeddings_generated
    &&& (c.phase matches Phase::Finished(Outcome::Failed(failure)) && (failure
        == Failure::BatchesFailed || failure == Failure::NoEmbeddings || failure
        == Failure::NoVectors || failure == Failure::UpdateLexical)) ==> {
        &&& c.status.total_chunks == c.chunks
        &&& c.full_reindex || c.previous is None ==> c.status.vectors_inserted == c.vectors
            && c.status.embeddings_generated == c.embeddings
        &&& !c.full_reindex && c.previous is Some ==> c.status.vectors_inserted >= c.vectors
            && c.status.vectors_inserted >= before(c).vectors_inserted && (
        c.status.vectors_inserted == c.vectors || c.status.vectors_inserted == before(
            c,
        ).vectors_inserted) && c.status.embeddings_generated >= c.embeddings
            && c.status.embeddings_generated >= before(c).embeddings_generated && (
        c.status.embeddings_generated == c.embeddings || c.status.embeddings_generated == before(
            c,
        ).embeddings_generated)
    }
}

/// The answer that calls for a refusal.
spec fn calls_for_refusal(
    c: RunControl,
    heard: Heard,
    refusal: Refusal,
) -> bool {
    match refusal {
        Refusal::LexicalIndexMissing => c.mode == Mode::Update && (heard(
            Ask::LookForIndex,
            Signal::Looked { manifest: Some(true), lexical: Some(false) },
        ) || heard(Ask::LookForIndex, Signal::Looked { manifest: Some(true), lexical: None })),
        Refusal::CollectionUnknown => !c.embeddings_enabled && heard(
            Ask::HasCollection,
            Signal::Collection(None),
        ),
        Refusal::RecordUnreadable => heard(
            Ask::ReadBackendRecord,
            Signal::Record(RecordFact::Unreadable),
        ),
        Refusal::SemanticIndexExists => !c.embeddings_enabled && (before(c).vectors_inserted > 0
            || heard(Ask::HasCollection, Signal::Collection(Some(true))) || heard(
            Ask::ReadBackendRecord,
            Signal::Record(RecordFact::Same),
        ) || heard(Ask::ReadBackendRecord, Signal::Record(RecordFact::Differs))),
        Refusal::BackendDiffers => c.embeddings_enabled && heard(
            Ask::ReadBackendRecord,
            Signal::Record(RecordFact::Differs),
        ),
        Refusal::WalkFailed => heard(Ask::WalkFiles, Signal::Walked(None)),
        Refusal::ManifestUnreadable => heard(
            Ask::LoadManifest,
            Signal::Manifest(ManifestFact::Unreadable),
        ),
        Refusal::ManifestMissing => c.mode == Mode::Update && heard(
            Ask::LoadManifest,
            Signal::Manifest(ManifestFact::Absent),
        ),
        Refusal::ManifestIncompatible => c.mode == Mode::Update && heard(
            Ask::LoadManifest,
            Signal::Manifest(ManifestFact::Incompatible),
        ),
        Refusal::DiffFailed => heard(Ask::DiffManifest, Signal::Diff(None)),
        Refusal::CollectionLookupFailed => c.embeddings_enabled && heard(
            Ask::HasCollection,
            Signal::Collection(None),
        ),
        Refusal::CollectionMissing => c.mode == Mode::Update && c.embeddings_enabled && heard(
            Ask::HasCollection,
            Signal::Collection(Some(false)),
        ),
    }
}

/// The answer that calls for a failure.
spec fn calls_for_failure(
    c: RunControl,
    heard: Heard,
    failure: Failure,
) -> bool {
    match failure {
        Failure::PrepareVectors => c.embeddings_enabled && (heard(
            Ask::HasCollection,
            Signal::Collection(None),
        ) || heard(Ask::DropCollection, Signal::Done(false)) || heard(
            Ask::CreateCollection,
            Signal::Done(false),
        )),
        Failure::PrepareLexical => heard(
            Ask::PrepareLexical { clear: c.full_reindex },
            Signal::Done(false),
        ),
        Failure::DeleteVectors => heard(Ask::DeleteStaleVectors, Signal::Done(false)),
        Failure::WriteManifest => heard(
            Ask::WriteManifest { cached_fingerprints: c.diff is Some },
            Signal::Done(false),
        ),
        Failure::RecordBackend => heard(Ask::WriteBackendRecord, Signal::Done(false)),
        Failure::UpdateLexical => heard(
            Ask::Populate { embed: c.embeddings_enabled && c.chunks > 0 },
            Signal::Populated { lexical_stored: false },
        ),
        Failure::BatchesFailed => heard(Ask::Populate { embed: true }, Signal::BatchFailed),
        Failure::NoEmbeddings => c.embeddings_enabled && c.chunks > 0 && c.embeddings == 0
            && !c.batch_failed,
        Failure::NoVectors => c.embeddings_enabled && c.chunks > 0 && c.embeddings > 0 && c.vectors
            == 0 && !c.batch_failed,
    }
}

spec fn ended_as(c: RunControl, outcome: Outcome) -> bool {
    c.phase == Phase::Finished(outcome)
}

/// An answer after which a run cannot go on has ended it.
spec fn settled(c: RunControl, ask: Ask, reply: Signal) -> bool {
    match (ask, reply) {
        (Ask::LookForIndex, Signal::Looked { manifest, lexical }) => manifest == Some(true)
            && lexical != Some(true) ==> ended_as(c, Outcome::Refused(Refusal::LexicalIndexMissing)),
        (Ask::HasCollection, Signal::Collection(None)) => if c.embeddings_enabled {
            ended_as(c, Outcome::Refused(Refusal::CollectionLookupFailed)) || ended_as(
                c,
                Outcome::Failed(Failure::PrepareVectors),
            )
        } else {
            ended_as(c, Outcome::Refused(Refusal::CollectionUnknown))
        },
        (Ask::ReadBackendRecord, Signal::Record(RecordFact::Unreadable)) => ended_as(
            c,
            Outcome::Refused(Refusal::RecordUnreadable),
        ),
        (Ask::ReadBackendRecord, Signal::Record(RecordFact::Differs)) => ended_as(
            c,
            Outcome::Refused(
                if c.embeddings_enabled {
                    Refusal::BackendDiffers
                } else {
                    Refusal::SemanticIndexExists
                },
            ),
        ),
        (Ask::ReadBackendRecord, Signal::Record(RecordFact::Same)) => !c.embeddings_enabled
            ==> ended_as(c, Outcome::Refused(Refusal::SemanticIndexExists)),
        (Ask::WalkFiles, Signal::Walked(None)) => ended_as(c, Outcome::Refused(Refusal::WalkFailed)),
        (Ask::LoadManifest, Signal::Manifest(ManifestFact::Unreadable)) => ended_as(
            c,
            Outcome::Refused(Refusal::ManifestUnreadable),
        ),
        (Ask::LoadManifest, Signal::Manifest(ManifestFact::Absent)) => c.mode == Mode::Update
            ==> ended_as(c, Outcome::Refused(Refusal::ManifestMissing)),
        (Ask::LoadManifest, Signal::Manifest(ManifestFact::Incompatible)) => c.mode == Mode::Update
            ==> ended_as(c, Outcome::Refused(Refusal::ManifestIncompatible)),
        (Ask::DiffManifest, Signal::Diff(None)) => ended_as(c, Outcome::Refused(Refusal::DiffFailed)),
        (Ask::Populate { .. }, Signal::Populated { lexical_stored: false }) => ended_as(
            c,
            Outcome::Failed(Failure::UpdateLexical),
        ),
        (Ask::DropCollection, Signal::Done(false)) => ended_as(
            c,
            Outcome::Failed(Failure::PrepareVectors),
        ),
        (Ask::CreateCollection, Signal::Done(false)) => ended_as(
            c,
            Outcome::Failed(Failure::PrepareVectors),
        ),
        (Ask::PrepareLexical { .. }, Signal::Done(false)) => ended_as(
            c,
            Outcome::Failed(Failure::PrepareLexical),
        ),
        (Ask::DeleteStaleVectors, Signal::Done(false)) => ended_as(
            c,
            Outcome::Failed(Failure::DeleteVectors),
        ),
        (Ask::WriteManifest { .. }, Signal::Done(false)) => ended_as(
            c,
            Outcome::Failed(Failure::WriteManifest),
        ),
        (Ask::WriteBackendRecord, Signal::Done(false)) => ended_as(
            c,
            Outcome::Failed(Failure::RecordBackend),
        ),
        _ => true,
    }
}

/// Why the run ended, if it did.
spec fn causes_stand(c: RunControl, heard: Heard) -> bool {
    &&& (c.phase matches Phase::Finished(Outcome::Refused(refusal)) ==> calls_for_refusal(
        c,
        heard,
        refusal,
    ))
    &&& (c.phase matches Phase::Finished(Outcome::Failed(failure)) ==> calls_for_failure(
        c,
        heard,
        failure,
    ))
    &&& c.has_semantic ==> heard(Ask::HasCollection, Signal::Collection(Some(true)))
    &&& (c.phase == Phase::LexicalGate ==> c.mode == Mode::Update)
    &&& c.phase == Phase::RecordGate && !c.has_semantic ==> heard(
        Ask::HasCollection,
        Signal::Collection(Some(false)),
    )
    &&& !at_gate(c.phase) && !refused(c) && !c.embeddings_enabled ==> heard(
        Ask::HasCollection,
        Signal::Collection(Some(false)),
    ) && heard(Ask::ReadBackendRecord, Signal::Record(RecordFact::Absent)) && before(
        c,
    ).vectors_inserted == 0
    &&& !at_gate(c.phase) && !refused(c) && c.embeddings_enabled ==> heard(
        Ask::ReadBackendRecord,
        Signal::Record(RecordFact::Absent),
    ) || heard(Ask::ReadBackendRecord, Signal::Record(RecordFact::Same))
    &&& c.mode == Mode::Update && c.phase != Phase::LexicalGate && !refused(c) ==> exists|
        manifest: Option<bool>,
        lexical: Option<bool>,
    |
        #[trigger] heard(Ask::LookForIndex, Signal::Looked { manifest, lexical }) && !(manifest
            == Some(true) && lexical != Some(true))
    &&& (c.phase == Phase::CollectionGate || c.phase == Phase::RecordGate ==>
        !c.embeddings_enabled)
    &&& (c.phase == Phase::BackendGate || c.phase == Phase::CollectionCheck || c.phase
        == Phase::FindOld || c.phase == Phase::DropOld || c.phase == Phase::FindCurrent || c.phase
        == Phase::Create ==> c.embeddings_enabled)
    &&& forall|ask: Ask, reply: Signal| #[trigger] heard(ask, reply) ==> settled(c, ask, reply)
}

proof fn lemma_plan_gate(
    c: RunControl,
    heard: Heard,
    then_heard: Heard,
    signal: Signal,
)
    requires
        plan_stands(c, heard),
        ({
            match c.phase {
                Phase::LexicalGate | Phase::CollectionGate | Phase::RecordGate | Phase::BackendGate => true,
                _ => false,
            }
        }),
        forall|ask: Ask, reply: Signal| #[trigger]
            then_heard(ask, reply) == (heard(ask, reply) || (ask == ask_of(c) && reply == signal)),
    ensures
        plan_stands(gate_step(c, signal).0, then_heard),
{
}

proof fn lemma_plan_plan(
    c: RunControl,
    heard: Heard,
    then_heard: Heard,
    signal: Signal,
)
    requires
        plan_stands(c, heard),
        ({
            match c.phase {
                Phase::Walk | Phase::Manifest | Phase::Diff | Phase::CollectionCheck | Phase::RowsUpToDate | Phase::RecordUpToDate => true,
                _ => false,
            }
        }),
        forall|ask: Ask, reply: Signal| #[trigger]
            then_heard(ask, reply) == (heard(ask, reply) || (ask == ask_of(c) && reply == signal)),
    ensures
        plan_stands(plan_step(c, signal).0, then_heard),
{
}

proof fn lemma_plan_prepare(
    c: RunControl,
    heard: Heard,
    then_heard: Heard,
    signal: Signal,
)
    requires
        plan_stands(c, heard),
        ({
            match c.phase {
                Phase::FindOld | Phase::DropOld | Phase::FindCurrent | Phase::Create | Phase::PrepareLexical | Phase::DeleteVectors => true,
                _ => false,
            }
        }),
        forall|ask: Ask, reply: Signal| #[trigger]
            then_heard(ask, reply) == (heard(ask, reply) || (ask == ask_of(c) && reply == signal)),
    ensures
        plan_stands(prepare_step(c, signal).0, then_heard),
{
}

proof fn lemma_plan_unread(
    c: RunControl,
    heard: Heard,
    then_heard: Heard,
    signal: Signal,
)
    requires
        plan_stands(c, heard),
        ({
            match c.phase {
                Phase::ManifestOnly | Phase::RowsOnly | Phase::RecordOnly => true,
                _ => false,
            }
        }),
        forall|ask: Ask, reply: Signal| #[trigger]
            then_heard(ask, reply) == (heard(ask, reply) || (ask == ask_of(c) && reply == signal)),
    ensures
        plan_stands(unread_step(c, signal).0, then_heard),
{
}

proof fn lemma_plan_fill(
    c: RunControl,
    heard: Heard,
    then_heard: Heard,
    signal: Signal,
)
    requires
        plan_stands(c, heard),
        ({
            match c.phase {
                Phase::Split | Phase::Populate | Phase::RowsAfter | Phase::ManifestAfter | Phase::RecordAfter => true,
                _ => false,
            }
        }),
        forall|ask: Ask, reply: Signal| #[trigger]
            then_heard(ask, reply) == (heard(ask, reply) || (ask == ask_of(c) && reply == signal)),
    ensures
        plan_stands(fill_step(c, signal).0, then_heard),
{
}

proof fn lemma_work_gate(
    c: RunControl,
    heard: Heard,
    then_heard: Heard,
    signal: Signal,
)
    requires
        work_stands(c, heard),
        plan_stands(c, heard),
        ({
            match c.phase {
                Phase::LexicalGate | Phase::CollectionGate | Phase::RecordGate | Phase::BackendGate => true,
                _ => false,
            }
        }),
        forall|ask: Ask, reply: Signal| #[trigger]
            then_heard(ask, reply) == (heard(ask, reply) || (ask == ask_of(c) && reply == signal)),
    ensures
        work_stands(gate_step(c, signal).0, then_heard),
{
}

proof fn lemma_work_plan(
    c: RunControl,
    heard: Heard,
    then_heard: Heard,
    signal: Signal,
)
    requires
        work_stands(c, heard),
        plan_stands(c, heard),
        ({
            match c.phase {
                Phase::Walk | Phase::Manifest | Phase::Diff | Phase::CollectionCheck | Phase::RowsUpToDate | Phase::RecordUpToDate => true,
                _ => false,
            }
        }),
        forall|ask: Ask, reply: Signal| #[trigger]
            then_heard(ask, reply) == (heard(ask, reply) || (ask == ask_of(c) && reply == signal)),
    ensures
        work_stands(plan_step(c, signal).0, then_heard),
{
}

proof fn lemma_work_prepare(
    c: RunControl,
    heard: Heard,
    then_heard: Heard,
    signal: Signal,
)
    requires
        work_stands(c, heard),
        plan_stands(c, heard),
        ({
            match c.phase {
                Phase::FindOld | Phase::DropOld | Phase::FindCurrent | Phase::Create | Phase::PrepareLexical | Phase::DeleteVectors => true,
                _ => false,
            }
        }),
        forall|ask: Ask, reply: Signal| #[trigger]
            then_heard(ask, reply) == (heard(ask, reply) || (ask == ask_of(c) && reply == signal)),
    ensures
        work_stands(prepare_step(c, signal).0, then_heard),
{
}

proof fn lemma_work_unread(
    c: RunControl,
    heard: Heard,
    then_heard: Heard,
    signal: Signal,
)
    requires
        work_stands(c, heard),
        plan_stands(c, heard),
        ({
            match c.phase {
                Phase::ManifestOnly | Phase::RowsOnly | Phase::RecordOnly => true,
                _ => false,
            }
        }),
        forall|ask: Ask, reply: Signal| #[trigger]
            then_heard(ask, reply) == (heard(ask, reply) || (ask == ask_of(c) && reply == signal)),
    ensures
        work_stands(unread_step(c, signal).0, then_heard),
{
}

proof fn lemma_work_fill(
    c: RunControl,
    heard: Heard,
    then_heard: Heard,
    signal: Signal,
)
    requires
        work_stands(c, heard),
        plan_stands(c, heard),
        ({
            match c.phase {
                Phase::Split | Phase::Populate | Phase::RowsAfter | Phase::ManifestAfter | Phase::RecordAfter => true,
                _ => false,
            }
        }),
        forall|ask: Ask, reply: Signal| #[trigger]
            then_heard(ask, reply) == (heard(ask, reply) || (ask == ask_of(c) && reply == signal)),
    ensures
        work_stands(fill_step(c, signal).0, then_heard),
{
}

proof fn lemma_status_gate(
    c: RunControl,
    record: Option<IndexStatus>,
    heard: Heard,
    then_heard: Heard,
    signal: Signal,
)
    requires
        status_stands(c, record, heard),
        plan_stands(c, heard),
        work_stands(c, heard),
        ({
            match c.phase {
                Phase::LexicalGate | Phase::CollectionGate | Phase::RecordGate | Phase::BackendGate => true,
                _ => false,
            }
        }),
        forall|ask: Ask, reply: Signal| #[trigger]
            then_heard(ask, reply) == (heard(ask, reply) || (ask == ask_of(c) && reply == signal)),
    ensures
        status_stands(gate_step(c, signal).0, recorded(gate_step(c, signal).1, record), then_heard),
{
}

proof fn lemma_status_plan(
    c: RunControl,
    record: Option<IndexStatus>,
    heard: Heard,
    then_heard: Heard,
    signal: Signal,
)
    requires
        status_stands(c, record, heard),
        plan_stands(c, heard),
        work_stands(c, heard),
        ({
            match c.phase {
                Phase::Walk | Phase::Manifest | Phase::Diff | Phase::CollectionCheck | Phase::RowsUpToDate | Phase::RecordUpToDate => true,
                _ => false,
            }
        }),
        forall|ask: Ask, reply: Signal| #[trigger]
            then_heard(ask, reply) == (heard(ask, reply) || (ask == ask_of(c) && reply == signal)),
    ensures
        status_stands(plan_step(c, signal).0, recorded(plan_step(c, signal).1, record), then_heard),
{
    assert(then_heard(ask_of(c), signal));
    if let Signal::Rows(Some(rows)) = signal {
        assert(then_heard(ask_of(c), Signal::Rows(Some(rows))));
    }
    if exists|rows: u64|
        c.vectors == count_of(rows) && #[trigger] heard(Ask::CountRows, Signal::Rows(Some(rows))) {
        let rows = choose|rows: u64|
            c.vectors == count_of(rows) && #[trigger] heard(
                Ask::CountRows,
                Signal::Rows(Some(rows)),
            );
        assert(then_heard(Ask::CountRows, Signal::Rows(Some(rows))));
    }
}

proof fn lemma_status_prepare(
    c: RunControl,
    record: Option<IndexStatus>,
    heard: Heard,
    then_heard: Heard,
    signal: Signal,
)
    requires
        status_stands(c, record, heard),
        plan_stands(c, heard),
        work_stands(c, heard),
        ({
            match c.phase {
                Phase::FindOld | Phase::DropOld | Phase::FindCurrent | Phase::Create | Phase::PrepareLexical | Phase::DeleteVectors => true,
                _ => false,
            }
        }),
        forall|ask: Ask, reply: Signal| #[trigger]
            then_heard(ask, reply) == (heard(ask, reply) || (ask == ask_of(c) && reply == signal)),
    ensures
        status_stands(prepare_step(c, signal).0, recorded(prepare_step(c, signal).1, record), then_heard),
{
}

proof fn lemma_status_unread(
    c: RunControl,
    record: Option<IndexStatus>,
    heard: Heard,
    then_heard: Heard,
    signal: Signal,
)
    requires
        status_stands(c, record, heard),
        plan_stands(c, heard),
        work_stands(c, heard),
        ({
            match c.phase {
                Phase::ManifestOnly | Phase::RowsOnly | Phase::RecordOnly => true,
                _ => false,
            }
        }),
        forall|ask: Ask, reply: Signal| #[trigger]
            then_heard(ask, reply) == (heard(ask, reply) || (ask == ask_of(c) && reply == signal)),
    ensures
        status_stands(unread_step(c, signal).0, recorded(unread_step(c, signal).1, record), then_heard),
{
    assert(then_heard(ask_of(c), signal));
    if let Signal::Rows(Some(rows)) = signal {
        assert(then_heard(ask_of(c), Signal::Rows(Some(rows))));
    }
    if exists|rows: u64|
        c.vectors == count_of(rows) && #[trigger] heard(Ask::CountRows, Signal::Rows(Some(rows))) {
        let rows = choose|rows: u64|
            c.vectors == count_of(rows) && #[trigger] heard(
                Ask::CountRows,
                Signal::Rows(Some(rows)),
            );
        assert(then_heard(Ask::CountRows, Signal::Rows(Some(rows))));
    }
}

proof fn lemma_status_fill(
    c: RunControl,
    record: Option<IndexStatus>,
    heard: Heard,
    then_heard: Heard,
    signal: Signal,
)
    requires
        status_stands(c, record, heard),
        plan_stands(c, heard),
        work_stands(c, heard),
        ({
            match c.phase {
                Phase::Split | Phase::Populate | Phase::RowsAfter | Phase::ManifestAfter | Phase::RecordAfter => true,
                _ => false,
            }
        }),
        forall|ask: Ask, reply: Signal| #[trigger]
            then_heard(ask, reply) == (heard(ask, reply) || (ask == ask_of(c) && reply == signal)),
    ensures
        status_stands(fill_step(c, signal).0, recorded(fill_step(c, signal).1, record), then_heard),
{
}

proof fn lemma_causes_gate(
    c: RunControl,
    heard: Heard,
    then_heard: Heard,
    signal: Signal,
)
    requires
        causes_stand(c, heard),
        plan_stands(c, heard),
        work_stands(c, heard),
        ({
            match c.phase {
                Phase::LexicalGate | Phase::CollectionGate | Phase::RecordGate | Phase::BackendGate => true,
                _ => false,
            }
        }),
        forall|ask: Ask, reply: Signal| #[trigger]
            then_heard(ask, reply) == (heard(ask, reply) || (ask == ask_of(c) && reply == signal)),
    ensures
        causes_stand(gate_step(c, signal).0, then_heard),
{
    assert(then_heard(ask_of(c), signal));
    if let Signal::Looked { manifest, lexical } = signal {
        assert(then_heard(ask_of(c), Signal::Looked { manifest, lexical }));
    }
    assert(then_heard(ask_of(c), Signal::Collection(Some(false))) || signal != Signal::Collection(
        Some(false),
    ));
    assert(then_heard(ask_of(c), Signal::Collection(Some(true))) || signal != Signal::Collection(
        Some(true),
    ));
    if let Signal::Looked { manifest, lexical } = signal {
        if manifest == Some(true) && lexical != Some(true) {
            assert(lexical == Some(false) || lexical is None);
            assert(then_heard(ask_of(c), Signal::Looked { manifest: Some(true), lexical }));
        }
    }
    assert(then_heard(ask_of(c), signal));
    if exists|manifest: Option<bool>, lexical: Option<bool>|
        #[trigger] heard(Ask::LookForIndex, Signal::Looked { manifest, lexical }) && !(manifest
            == Some(true) && lexical != Some(true)) {
        let (manifest, lexical) = choose|manifest: Option<bool>, lexical: Option<bool>|
            #[trigger] heard(Ask::LookForIndex, Signal::Looked { manifest, lexical }) && !(manifest
                == Some(true) && lexical != Some(true));
        assert(then_heard(Ask::LookForIndex, Signal::Looked { manifest, lexical }));
    }
    let following = gate_step(c, signal).0;
    assert forall|ask: Ask, reply: Signal| #[trigger] then_heard(ask, reply) implies settled(
        following,
        ask,
        reply,
    ) by {
        if heard(ask, reply) {
            assert(settled(c, ask, reply));
        }
    }
}

proof fn lemma_causes_plan(
    c: RunControl,
    heard: Heard,
    then_heard: Heard,
    signal: Signal,
)
    requires
        causes_stand(c, heard),
        plan_stands(c, heard),
        work_stands(c, heard),
        ({
            match c.phase {
                Phase::Walk | Phase::Manifest | Phase::Diff | Phase::CollectionCheck | Phase::RowsUpToDate | Phase::RecordUpToDate => true,
                _ => false,
            }
        }),
        forall|ask: Ask, reply: Signal| #[trigger]
            then_heard(ask, reply) == (heard(ask, reply) || (ask == ask_of(c) && reply == signal)),
    ensures
        causes_stand(plan_step(c, signal).0, then_heard),
{
    assert(then_heard(ask_of(c), signal));
    if exists|manifest: Option<bool>, lexical: Option<bool>|
        #[trigger] heard(Ask::LookForIndex, Signal::Looked { manifest, lexical }) && !(manifest
            == Some(true) && lexical != Some(true)) {
        let (manifest, lexical) = choose|manifest: Option<bool>, lexical: Option<bool>|
            #[trigger] heard(Ask::LookForIndex, Signal::Looked { manifest, lexical }) && !(manifest
                == Some(true) && lexical != Some(true));
        assert(then_heard(Ask::LookForIndex, Signal::Looked { manifest, lexical }));
    }
    let following = plan_step(c, signal).0;
    assert forall|ask: Ask, reply: Signal| #[trigger] then_heard(ask, reply) implies settled(
        following,
        ask,
        reply,
    ) by {
        if heard(ask, reply) {
            assert(settled(c, ask, reply));
        }
    }
}

proof fn lemma_causes_prepare(
    c: RunControl,
    heard: Heard,
    then_heard: Heard,
    signal: Signal,
)
    requires
        causes_stand(c, heard),
        plan_stands(c, heard),
        work_stands(c, heard),
        ({
            match c.phase {
                Phase::FindOld | Phase::DropOld | Phase::FindCurrent | Phase::Create | Phase::PrepareLexical | Phase::DeleteVectors => true,
                _ => false,
            }
        }),
        forall|ask: Ask, reply: Signal| #[trigger]
            then_heard(ask, reply) == (heard(ask, reply) || (ask == ask_of(c) && reply == signal)),
    ensures
        causes_stand(prepare_step(c, signal).0, then_heard),
{
    assert(then_heard(ask_of(c), signal));
    if exists|manifest: Option<bool>, lexical: Option<bool>|
        #[trigger] heard(Ask::LookForIndex, Signal::Looked { manifest, lexical }) && !(manifest
            == Some(true) && lexical != Some(true)) {
        let (manifest, lexical) = choose|manifest: Option<bool>, lexical: Option<bool>|
            #[trigger] heard(Ask::LookForIndex, Signal::Looked { manifest, lexical }) && !(manifest
                == Some(true) && lexical != Some(true));
        assert(then_heard(Ask::LookForIndex, Signal::Looked { manifest, lexical }));
    }
    let following = prepare_step(c, signal).0;
    assert forall|ask: Ask, reply: Signal| #[trigger] then_heard(ask, reply) implies settled(
        following,
        ask,
        reply,
    ) by {
        if heard(ask, reply) {
            assert(settled(c, ask, reply));
        }
    }
}

proof fn lemma_causes_unread(
    c: RunControl,
    heard: Heard,
    then_heard: Heard,
    signal: Signal,
)
    requires
        causes_stand(c, heard),
        plan_stands(c, heard),
        work_stands(c, heard),
        ({
            match c.phase {
                Phase::ManifestOnly | Phase::RowsOnly | Phase::RecordOnly => true,
                _ => false,
            }
        }),
        forall|ask: Ask, reply: Signal| #[trigger]
            then_heard(ask, reply) == (heard(ask, reply) || (ask == ask_of(c) && reply == signal)),
    ensures
        causes_stand(unread_step(c, signal).0, then_heard),
{
    assert(then_heard(ask_of(c), signal));
    if exists|manifest: Option<bool>, lexical: Option<bool>|
        #[trigger] heard(Ask::LookForIndex, Signal::Looked { manifest, lexical }) && !(manifest
            == Some(true) && lexical != Some(true)) {
        let (manifest, lexical) = choose|manifest: Option<bool>, lexical: Option<bool>|
            #[trigger] heard(Ask::LookForIndex, Signal::Looked { manifest, lexical }) && !(manifest
                == Some(true) && lexical != Some(true));
        assert(then_heard(Ask::LookForIndex, Signal::Looked { manifest, lexical }));
    }
    let following = unread_step(c, signal).0;
    assert forall|ask: Ask, reply: Signal| #[trigger] then_heard(ask, reply) implies settled(
        following,
        ask,
        reply,
    ) by {
        if heard(ask, reply) {
            assert(settled(c, ask, reply));
        }
    }
}

proof fn lemma_causes_fill(
    c: RunControl,
    heard: Heard,
    then_heard: Heard,
    signal: Signal,
)
    requires
        causes_stand(c, heard),
        plan_stands(c, heard),
        work_stands(c, heard),
        ({
            match c.phase {
                Phase::Split | Phase::Populate | Phase::RowsAfter | Phase::ManifestAfter | Phase::RecordAfter => true,
                _ => false,
            }
        }),
        forall|ask: Ask, reply: Signal| #[trigger]
            then_heard(ask, reply) == (heard(ask, reply) || (ask == ask_of(c) && reply == signal)),
    ensures
        causes_stand(fill_step(c, signal).0, then_heard),
{
    assert(then_heard(ask_of(c), signal));
    if exists|manifest: Option<bool>, lexical: Option<bool>|
        #[trigger] heard(Ask::LookForIndex, Signal::Looked { manifest, lexical }) && !(manifest
            == Some(true) && lexical != Some(true)) {
        let (manifest, lexical) = choose|manifest: Option<bool>, lexical: Option<bool>|
            #[trigger] heard(Ask::LookForIndex, Signal::Looked { manifest, lexical }) && !(manifest
                == Some(true) && lexical != Some(true));
        assert(then_heard(Ask::LookForIndex, Signal::Looked { manifest, lexical }));
    }
    let following = fill_step(c, signal).0;
    assert forall|ask: Ask, reply: Signal| #[trigger] then_heard(ask, reply) implies settled(
        following,
        ask,
        reply,
    ) by {
        if heard(ask, reply) {
            assert(settled(c, ask, reply));
        }
    }
}

spec fn all_stands(c: RunControl, record: Option<IndexStatus>, heard: Heard) -> bool {
    plan_stands(c, heard) && work_stands(c, heard) && status_stands(c, record, heard)
        && causes_stand(c, heard)
}

proof fn lemma_step_stands(
    c: RunControl,
    record: Option<IndexStatus>,
    heard: Heard,
    then_heard: Heard,
    signal: Signal,
)
    requires
        all_stands(c, record, heard),
        forall|ask: Ask, reply: Signal| #[trigger]
            then_heard(ask, reply) == (heard(ask, reply) || (ask == ask_of(c) && reply == signal)),
    ensures
        all_stands(next(c, signal).0, recorded(next(c, signal).1, record), then_heard),
{
    reveal(next);
    match c.phase {
        Phase::LexicalGate | Phase::CollectionGate | Phase::RecordGate | Phase::BackendGate => {
            lemma_plan_gate(c, heard, then_heard, signal);
            lemma_work_gate(c, heard, then_heard, signal);
            lemma_status_gate(c, record, heard, then_heard, signal);
            lemma_causes_gate(c, heard, then_heard, signal);
        },
        Phase::Walk | Phase::Manifest | Phase::Diff | Phase::CollectionCheck | Phase::RowsUpToDate | Phase::RecordUpToDate => {
            lemma_plan_plan(c, heard, then_heard, signal);
            lemma_work_plan(c, heard, then_heard, signal);
            lemma_status_plan(c, record, heard, then_heard, signal);
            lemma_causes_plan(c, heard, then_heard, signal);
        },
        Phase::FindOld | Phase::DropOld | Phase::FindCurrent | Phase::Create | Phase::PrepareLexical | Phase::DeleteVectors => {
            lemma_plan_prepare(c, heard, then_heard, signal);
            lemma_work_prepare(c, heard, then_heard, signal);
            lemma_status_prepare(c, record, heard, then_heard, signal);
            lemma_causes_prepare(c, heard, then_heard, signal);
        },
        Phase::ManifestOnly | Phase::RowsOnly | Phase::RecordOnly => {
            lemma_plan_unread(c, heard, then_heard, signal);
            lemma_work_unread(c, heard, then_heard, signal);
            lemma_status_unread(c, record, heard, then_heard, signal);
            lemma_causes_unread(c, heard, then_heard, signal);
        },
        Phase::Split | Phase::Populate | Phase::RowsAfter | Phase::ManifestAfter | Phase::RecordAfter => {
            lemma_plan_fill(c, heard, then_heard, signal);
            lemma_work_fill(c, heard, then_heard, signal);
            lemma_status_fill(c, record, heard, then_heard, signal);
            lemma_causes_fill(c, heard, then_heard, signal);
        },
        Phase::Finished(_) => {
            lemma_finished(c, record, heard, then_heard, signal);
        },
    }
}

proof fn lemma_finished(
    c: RunControl,
    record: Option<IndexStatus>,
    heard: Heard,
    then_heard: Heard,
    signal: Signal,
)
    requires
        all_stands(c, record, heard),
        c.phase is Finished,
        forall|ask: Ask, reply: Signal| #[trigger]
            then_heard(ask, reply) == (heard(ask, reply) || (ask == ask_of(c) && reply == signal)),
    ensures
        all_stands(c, record, then_heard),
{
    if exists|manifest: Option<bool>, lexical: Option<bool>|
        #[trigger] heard(Ask::LookForIndex, Signal::Looked { manifest, lexical }) && !(manifest
            == Some(true) && lexical != Some(true)) {
        let (manifest, lexical) = choose|manifest: Option<bool>, lexical: Option<bool>|
            #[trigger] heard(Ask::LookForIndex, Signal::Looked { manifest, lexical }) && !(manifest
                == Some(true) && lexical != Some(true));
        assert(then_heard(Ask::LookForIndex, Signal::Looked { manifest, lexical }));
    }
    if exists|rows: u64|
        c.vectors == count_of(rows) && #[trigger] heard(Ask::CountRows, Signal::Rows(Some(rows))) {
        let rows = choose|rows: u64|
            c.vectors == count_of(rows) && #[trigger] heard(
                Ask::CountRows,
                Signal::Rows(Some(rows)),
            );
        assert(then_heard(Ask::CountRows, Signal::Rows(Some(rows))));
    }
    assert forall|ask: Ask, reply: Signal| #[trigger] then_heard(ask, reply) implies settled(
        c,
        ask,
        reply,
    ) by {
        assert(heard(ask, reply) || ask == Ask::Nothing);
    }
}

proof fn lemma_run_stands(
    mode: Mode,
    embeddings_enabled: bool,
    previous: Option<IndexStatus>,
    signals: Seq<Signal>,
)
    ensures
        ({
            let c = started(mode, embeddings_enabled, previous);
            all_stands(
                after(c, signals),
                record_after(c, first_record(), signals),
                |ask: Ask, reply: Signal| answered(c, signals, ask, reply),
            )
        }),
    decreases signals.len(),
{
    let c = started(mode, embeddings_enabled, previous);
    let heard = |ask: Ask, reply: Signal| answered(c, signals, ask, reply);
    if signals.len() == 0 {
        assert(forall|ask: Ask, reply: Signal| !#[trigger] heard(ask, reply));
    } else {
        let earlier = signals.drop_last();
        let before_it = |ask: Ask, reply: Signal| answered(c, earlier, ask, reply);
        lemma_run_stands(mode, embeddings_enabled, previous, earlier);
        lemma_step_stands(
            after(c, earlier),
            record_after(c, first_record(), earlier),
            before_it,
            heard,
            signals.last(),
        );
    }
}

/// The answers to a question never bring a run back to an earlier one.
proof fn lemma_never_back(c: RunControl, signal: Signal)
    ensures
        distance(next(c, signal).0.phase) <= distance(c.phase),
{
    reveal(next);
    match c.phase {
        Phase::LexicalGate | Phase::CollectionGate | Phase::RecordGate | Phase::BackendGate => {
            assert(distance(gate_step(c, signal).0.phase) <= distance(c.phase));
        },
        Phase::Walk | Phase::Manifest | Phase::Diff | Phase::CollectionCheck | Phase::RowsUpToDate | Phase::RecordUpToDate => {
            assert(distance(plan_step(c, signal).0.phase) <= distance(c.phase));
        },
        Phase::FindOld | Phase::DropOld | Phase::FindCurrent | Phase::Create | Phase::PrepareLexical | Phase::DeleteVectors => {
            assert(distance(prepare_step(c, signal).0.phase) <= distance(c.phase));
        },
        Phase::ManifestOnly | Phase::RowsOnly | Phase::RecordOnly => {
            assert(distance(unread_step(c, signal).0.phase) <= distance(c.phase));
        },
        Phase::Split | Phase::Populate | Phase::RowsAfter | Phase::ManifestAfter | Phase::RecordAfter => {
            assert(distance(fill_step(c, signal).0.phase) <= distance(c.phase));
        },
        Phase::Finished(_) => {},
    }
}

proof fn lemma_compared(
    mode: Mode,
    embeddings_enabled: bool,
    previous: Option<IndexStatus>,
    signals: Seq<Signal>,
)
    ensures
        ({
            let c = started(mode, embeddings_enabled, previous);
            asked(c, signals, Ask::DiffManifest) ==> distance(after(c, signals).phase) <= 13
                && mode != Mode::Rebuild && answered(
                c,
                signals,
                Ask::LoadManifest,
                Signal::Manifest(ManifestFact::Compatible),
            )
        }),
    decreases signals.len(),
{
    let c = started(mode, embeddings_enabled, previous);
    let end = after(c, signals);
    let heard = |ask: Ask, reply: Signal| answered(c, signals, ask, reply);
    lemma_run_stands(mode, embeddings_enabled, previous, signals);
    law_run_keeps_its_mode(mode, embeddings_enabled, previous, signals);
    if ask_of(end) == Ask::DiffManifest {
        assert(end.phase == Phase::Diff);
        assert(heard(Ask::LoadManifest, Signal::Manifest(ManifestFact::Compatible)));
    } else if signals.len() > 0 {
        lemma_compared(mode, embeddings_enabled, previous, signals.drop_last());
        lemma_never_back(after(c, signals.drop_last()), signals.last());
    }
}

/// The manifest is read once: two answers to `LoadManifest` are the same one.
proof fn lemma_one_manifest(
    mode: Mode,
    embeddings_enabled: bool,
    previous: Option<IndexStatus>,
    signals: Seq<Signal>,
    fact: ManifestFact,
    other: ManifestFact,
)
    requires
        ({
            let c = started(mode, embeddings_enabled, previous);
            &&& answered(c, signals, Ask::LoadManifest, Signal::Manifest(fact))
            &&& answered(c, signals, Ask::LoadManifest, Signal::Manifest(other))
        }),
    ensures
        fact == other,
{
    let c = started(mode, embeddings_enabled, previous);
    let heard = |ask: Ask, reply: Signal| answered(c, signals, ask, reply);
    lemma_run_stands(mode, embeddings_enabled, previous, signals);
    assert(heard(Ask::LoadManifest, Signal::Manifest(fact)) && heard(
        Ask::LoadManifest,
        Signal::Manifest(other),
    ));
}

/// A run that is no update, and that found no manifest, found one made with other
/// settings, or was told to rebuild, compares nothing. Where it succeeds it has
/// rebuilt the index: the lexical index was cleared, a vector collection was
/// dropped where there was one, and every file that was found was read.
pub proof fn law_run_without_usable_manifest_rebuilds(
    mode: Mode,
    embeddings_enabled: bool,
    previous: Option<IndexStatus>,
    signals: Seq<Signal>,
)
    requires
        mode != Mode::Update,
        ({
            let c = started(mode, embeddings_enabled, previous);
            ||| mode == Mode::Rebuild
            ||| answered(c, signals, Ask::LoadManifest, Signal::Manifest(ManifestFact::Absent))
            ||| answered(
                c,
                signals,
                Ask::LoadManifest,
                Signal::Manifest(ManifestFact::Incompatible),
            )
        }),
    ensures
        ({
            let c = started(mode, embeddings_enabled, previous);
            let end = after(c, signals);
            &&& !asked(c, signals, Ask::DiffManifest)
            &&& succeeded(end) ==> {
                &&& end.full_reindex
                &&& answered(c, signals, Ask::PrepareLexical { clear: true }, Signal::Done(true))
                &&& answered(c, signals, Ask::WalkFiles, Signal::Walked(Some(end.selected_files)))
                &&& end.status.total_files == end.selected_files
                &&& end.selected_files == 0 ==> end.phase == Phase::Finished(Outcome::NothingToRead)
                &&& end.selected_files > 0 ==> end.phase == Phase::Finished(Outcome::Indexed)
                    && answered(c, signals, Ask::SplitFiles, Signal::Chunked(end.chunks))
                &&& embeddings_enabled ==> answered(
                    c,
                    signals,
                    Ask::HasCollection,
                    Signal::Collection(Some(false)),
                ) || answered(c, signals, Ask::DropCollection, Signal::Done(true))
            }
        }),
{
    let c = started(mode, embeddings_enabled, previous);
    let end = after(c, signals);
    let heard = |ask: Ask, reply: Signal| answered(c, signals, ask, reply);
    lemma_run_stands(mode, embeddings_enabled, previous, signals);
    law_run_keeps_its_mode(mode, embeddings_enabled, previous, signals);
    law_ended_run_has_a_final_status(mode, embeddings_enabled, previous, signals);
    lemma_compared(mode, embeddings_enabled, previous, signals);
    let compatible = Signal::Manifest(ManifestFact::Compatible);
    if answered(c, signals, Ask::LoadManifest, compatible) && mode != Mode::Rebuild {
        let fact = if answered(
            c,
            signals,
            Ask::LoadManifest,
            Signal::Manifest(ManifestFact::Absent),
        ) {
            ManifestFact::Absent
        } else {
            ManifestFact::Incompatible
        };
        lemma_one_manifest(
            mode,
            embeddings_enabled,
            previous,
            signals,
            fact,
            ManifestFact::Compatible,
        );
    }
    assert(heard(Ask::LoadManifest, compatible) == answered(
        c,
        signals,
        Ask::LoadManifest,
        compatible,
    ));
    if succeeded(end) {
        assert(end.full_reindex);
    }
}

/// An update that finds no manifest, or one made with other settings, is refused
/// for that.
pub proof fn law_update_needs_a_usable_manifest(
    embeddings_enabled: bool,
    previous: Option<IndexStatus>,
    signals: Seq<Signal>,
)
    ensures
        ({
            let c = started(Mode::Update, embeddings_enabled, previous);
            let end = after(c, signals);
            &&& answered(c, signals, Ask::LoadManifest, Signal::Manifest(ManifestFact::Absent))
                ==> end.phase == Phase::Finished(Outcome::Refused(Refusal::ManifestMissing))
            &&& answered(
                c,
                signals,
                Ask::LoadManifest,
                Signal::Manifest(ManifestFact::Incompatible),
            ) ==> end.phase == Phase::Finished(Outcome::Refused(Refusal::ManifestIncompatible))
        }),
{
    let c = started(Mode::Update, embeddings_enabled, previous);
    let end = after(c, signals);
    let heard = |ask: Ask, reply: Signal| answered(c, signals, ask, reply);
    lemma_run_stands(Mode::Update, embeddings_enabled, previous, signals);
    law_run_keeps_its_mode(Mode::Update, embeddings_enabled, previous, signals);
    let absent = Signal::Manifest(ManifestFact::Absent);
    let incompatible = Signal::Manifest(ManifestFact::Incompatible);
    assert(heard(Ask::LoadManifest, absent) ==> settled(end, Ask::LoadManifest, absent));
    assert(heard(Ask::LoadManifest, incompatible) ==> settled(
        end,
        Ask::LoadManifest,
        incompatible,
    ));
}

/// A run that is not told to rebuild, and that found a manifest made with the same
/// settings, goes by the comparison with it. It rebuilds only where its vector
/// collection is gone. Otherwise it is up to date exactly where the comparison is
/// empty; where it is not, the lexical index is kept, exactly the changed files
/// are read, and stale vectors are deleted exactly where there are stale entries
/// and the run embeds.
pub proof fn law_run_with_usable_manifest_follows_the_comparison(
    mode: Mode,
    embeddings_enabled: bool,
    previous: Option<IndexStatus>,
    signals: Seq<Signal>,
    diff: DiffFact,
)
    requires
        mode != Mode::Rebuild,
        ({
            let c = started(mode, embeddings_enabled, previous);
            &&& answered(c, signals, Ask::LoadManifest, Signal::Manifest(ManifestFact::Compatible))
            &&& answered(c, signals, Ask::DiffManifest, Signal::Diff(Some(diff)))
        }),
    ensures
        ({
            let c = started(mode, embeddings_enabled, previous);
            let end = after(c, signals);
            &&& end.diff == Some(diff)
            &&& end.full_reindex ==> mode != Mode::Update && embeddings_enabled && answered(
                c,
                signals,
                Ask::HasCollection,
                Signal::Collection(Some(false)),
            )
            &&& succeeded(end) && end.full_reindex ==> answered(
                c,
                signals,
                Ask::PrepareLexical { clear: true },
                Signal::Done(true),
            ) && answered(c, signals, Ask::WalkFiles, Signal::Walked(Some(end.selected_files)))
            &&& succeeded(end) && !end.full_reindex && embeddings_enabled ==> answered(
                c,
                signals,
                Ask::HasCollection,
                Signal::Collection(Some(true)),
            )
            &&& succeeded(end) && !end.full_reindex ==> {
                &&& end.phase == Phase::Finished(Outcome::UpToDate) <==> diff.empty
                &&& end.phase == Phase::Finished(Outcome::NothingToRead) <==> !diff.empty
                    && diff.changed_files == 0
                &&& end.phase == Phase::Finished(Outcome::Indexed) <==> !diff.empty
                    && diff.changed_files > 0
                &&& !diff.empty ==> end.selected_files == diff.changed_files && answered(
                    c,
                    signals,
                    Ask::PrepareLexical { clear: false },
                    Signal::Done(true),
                )
                &&& !diff.empty && diff.stale && embeddings_enabled ==> answered(
                    c,
                    signals,
                    Ask::DeleteStaleVectors,
                    Signal::Done(true),
                )
                &&& !diff.stale || !embeddings_enabled || diff.empty ==> (forall|reply: Signal|
                    !#[trigger] answered(c, signals, Ask::DeleteStaleVectors, reply))
            }
        }),
{
    let c = started(mode, embeddings_enabled, previous);
    let end = after(c, signals);
    let heard = |ask: Ask, reply: Signal| answered(c, signals, ask, reply);
    lemma_run_stands(mode, embeddings_enabled, previous, signals);
    law_run_keeps_its_mode(mode, embeddings_enabled, previous, signals);
    assert(heard(Ask::DiffManifest, Signal::Diff(Some(diff))));
    assert forall|reply: Signal|
        (forall|r: Signal| !#[trigger] heard(Ask::DeleteStaleVectors, r)) implies !#[trigger] answered(
        c,
        signals,
        Ask::DeleteStaleVectors,
        reply,
    ) by {
        assert(!heard(Ask::DeleteStaleVectors, reply));
    }
}

/// An incremental run succeeds only after it found a manifest made with the same
/// settings and compared the files with it.
pub proof fn law_incremental_run_compared(
    mode: Mode,
    embeddings_enabled: bool,
    previous: Option<IndexStatus>,
    signals: Seq<Signal>,
)
    ensures
        ({
            let c = started(mode, embeddings_enabled, previous);
            let end = after(c, signals);
            succeeded(end) && !end.full_reindex ==> {
                &&& mode != Mode::Rebuild
                &&& answered(
                    c,
                    signals,
                    Ask::LoadManifest,
                    Signal::Manifest(ManifestFact::Compatible),
                )
                &&& end.diff is Some
                &&& answered(c, signals, Ask::DiffManifest, Signal::Diff(end.diff))
            }
        }),
{
    let c = started(mode, embeddings_enabled, previous);
    lemma_run_stands(mode, embeddings_enabled, previous, signals);
    law_run_keeps_its_mode(mode, embeddings_enabled, previous, signals);
}

/// A run that read files ends with a status, shown and on disk, that covers every
/// file found. Without embeddings, and after a rebuild, it counts the chunks that
/// the files were split into and the embeddings of the stored batches. After an
/// incremental run with embeddings both counts are that of the stored vectors. The
/// vectors are always those of the stored batches.
pub proof fn law_indexed_run_reports_what_it_stored(
    mode: Mode,
    embeddings_enabled: bool,
    previous: Option<IndexStatus>,
    signals: Seq<Signal>,
    files: usize,
    chunks: usize,
)
    requires
        ({
            let c = started(mode, embeddings_enabled, previous);
            &&& after(c, signals).phase == Phase::Finished(Outcome::Indexed)
            &&& answered(c, signals, Ask::WalkFiles, Signal::Walked(Some(files)))
            &&& answered(c, signals, Ask::SplitFiles, Signal::Chunked(chunks))
            &&& stored_embeddings(c, signals) <= usize::MAX
            &&& stored_vectors(c, signals) <= usize::MAX
        }),
    ensures
        ({
            let c = started(mode, embeddings_enabled, previous);
            let end = after(c, signals);
            &&& record_after(c, first_record(), signals) == Some(end.status)
            &&& end.status.status == IndexState::Completed
            &&& end.status.total_files == files
            &&& end.status.processed_files == files
            &&& !embeddings_enabled || end.full_reindex ==> end.status.total_chunks == chunks
                && end.status.embeddings_generated == stored_embeddings(c, signals)
            &&& embeddings_enabled && !end.full_reindex ==> end.status.total_chunks
                == stored_vectors(c, signals) && end.status.embeddings_generated == stored_vectors(
                c,
                signals,
            )
            &&& end.status.vectors_inserted == stored_vectors(c, signals)
        }),
{
    let c = started(mode, embeddings_enabled, previous);
    let heard = |ask: Ask, reply: Signal| answered(c, signals, ask, reply);
    lemma_run_stands(mode, embeddings_enabled, previous, signals);
    law_run_keeps_its_mode(mode, embeddings_enabled, previous, signals);
    law_ended_run_has_a_final_status(mode, embeddings_enabled, previous, signals);
    law_counts_sum_up_the_batches(mode, embeddings_enabled, previous, signals);
    assert(heard(Ask::WalkFiles, Signal::Walked(Some(files))));
    assert(heard(Ask::SplitFiles, Signal::Chunked(chunks)));
}

/// A run that read files was told of the files and of the chunks, and that the
/// lexical index took them.
pub proof fn law_indexed_run_split_and_stored(
    mode: Mode,
    embeddings_enabled: bool,
    previous: Option<IndexStatus>,
    signals: Seq<Signal>,
)
    ensures
        ({
            let c = started(mode, embeddings_enabled, previous);
            let end = after(c, signals);
            end.phase == Phase::Finished(Outcome::Indexed) ==> {
                &&& end.selected_files > 0
                &&& answered(c, signals, Ask::WalkFiles, Signal::Walked(Some(end.total_files)))
                &&& answered(c, signals, Ask::SplitFiles, Signal::Chunked(end.chunks))
                &&& answered(
                    c,
                    signals,
                    Ask::Populate { embed: embeddings_enabled && end.chunks > 0 },
                    Signal::Populated { lexical_stored: true },
                )
                &&& !answered(c, signals, Ask::Populate { embed: true }, Signal::BatchFailed)
                    || end.chunks == 0 || !embeddings_enabled
                &&& embeddings_enabled ==> answered(
                    c,
                    signals,
                    Ask::HasCollection,
                    Signal::Collection(Some(true)),
                ) || answered(c, signals, Ask::CreateCollection, Signal::Done(true))
            }
        }),
{
    let c = started(mode, embeddings_enabled, previous);
    let heard = |ask: Ask, reply: Signal| answered(c, signals, ask, reply);
    lemma_run_stands(mode, embeddings_enabled, previous, signals);
    law_run_keeps_its_mode(mode, embeddings_enabled, previous, signals);
    if embeddings_enabled {
        law_success_stored_vectors(mode, previous, signals);
    }
    assert(heard(Ask::Populate { embed: true }, Signal::BatchFailed) == answered(
        c,
        signals,
        Ask::Populate { embed: true },
        Signal::BatchFailed,
    ));
}

/// A run that only removed stale entries counts what the collection holds as
/// chunks, embeddings and vectors alike: nothing without embeddings, or where the
/// rows could not be counted.
pub proof fn law_run_that_read_nothing_reports_the_rows(
    mode: Mode,
    embeddings_enabled: bool,
    previous: Option<IndexStatus>,
    signals: Seq<Signal>,
)
    ensures
        ({
            let c = started(mode, embeddings_enabled, previous);
            let end = after(c, signals);
            let vectors = end.status.vectors_inserted;
            end.phase == Phase::Finished(Outcome::NothingToRead) ==> {
                &&& end.selected_files == 0
                &&& answered(
                    c,
                    signals,
                    Ask::WalkFiles,
                    Signal::Walked(Some(end.status.total_files)),
                )
                &&& end.status.processed_files == end.status.total_files
                &&& end.status.total_chunks == vectors
                &&& end.status.embeddings_generated == vectors
                &&& record_after(c, first_record(), signals) == Some(end.status)
                &&& !embeddings_enabled ==> vectors == 0
                &&& embeddings_enabled ==> {
                    ||| vectors == 0 && answered(c, signals, Ask::CountRows, Signal::Rows(None))
                    ||| exists|rows: u64|
                        #![trigger answered(c, signals, Ask::CountRows, Signal::Rows(Some(rows)))]
                        answered(c, signals, Ask::CountRows, Signal::Rows(Some(rows))) && vectors
                            == (if rows <= usize::MAX {
                            rows as int
                        } else {
                            usize::MAX as int
                        })
                }
            }
        }),
{
    let c = started(mode, embeddings_enabled, previous);
    let end = after(c, signals);
    let heard = |ask: Ask, reply: Signal| answered(c, signals, ask, reply);
    lemma_run_stands(mode, embeddings_enabled, previous, signals);
    law_run_keeps_its_mode(mode, embeddings_enabled, previous, signals);
    law_ended_run_has_a_final_status(mode, embeddings_enabled, previous, signals);
    if exists|rows: u64|
        end.vectors == count_of(rows) && #[trigger] heard(Ask::CountRows, Signal::Rows(Some(rows))) {
        let rows = choose|rows: u64|
            end.vectors == count_of(rows) && #[trigger] heard(
                Ask::CountRows,
                Signal::Rows(Some(rows)),
            );
        assert(answered(c, signals, Ask::CountRows, Signal::Rows(Some(rows))));
    }
}

/// A run that found nothing changed keeps the counts on record, nothing where
/// there is no record, and covers every file found. Without embeddings it reports
/// no vectors. With them it reports the vectors on record where those are of a
/// completed index; otherwise the rows of the collection, or again what is on
/// record where the rows could not be counted.
pub proof fn law_up_to_date_run_reports_the_record(
    mode: Mode,
    embeddings_enabled: bool,
    previous: Option<IndexStatus>,
    signals: Seq<Signal>,
)
    ensures
        ({
            let c = started(mode, embeddings_enabled, previous);
            let end = after(c, signals);
            let vectors = end.status.vectors_inserted;
            let known = previous is Some && previous->0.status == IndexState::Completed
                && previous->0.vectors_inserted > 0;
            end.phase == Phase::Finished(Outcome::UpToDate) ==> {
                &&& answered(
                    c,
                    signals,
                    Ask::WalkFiles,
                    Signal::Walked(Some(end.status.total_files)),
                )
                &&& end.status.processed_files == end.status.total_files
                &&& record_after(c, first_record(), signals) == Some(end.status)
                &&& previous is Some ==> end.status.total_chunks == previous->0.total_chunks
                    && end.status.embeddings_generated == previous->0.embeddings_generated
                &&& previous is None ==> end.status.total_chunks == 0
                    && end.status.embeddings_generated == 0
                &&& !embeddings_enabled ==> vectors == 0
                &&& embeddings_enabled && known ==> vectors == previous->0.vectors_inserted
                &&& embeddings_enabled && !known ==> {
                    ||| answered(c, signals, Ask::CountRows, Signal::Rows(None)) && vectors == (
                    if previous is Some {
                        previous->0.vectors_inserted
                    } else {
                        0
                    })
                    ||| exists|rows: u64|
                        #![trigger answered(c, signals, Ask::CountRows, Signal::Rows(Some(rows)))]
                        answered(c, signals, Ask::CountRows, Signal::Rows(Some(rows))) && vectors
                            == (if rows <= usize::MAX {
                            rows as int
                        } else {
                            usize::MAX as int
                        })
                }
            }
        }),
{
    let c = started(mode, embeddings_enabled, previous);
    let end = after(c, signals);
    let heard = |ask: Ask, reply: Signal| answered(c, signals, ask, reply);
    lemma_run_stands(mode, embeddings_enabled, previous, signals);
    law_run_keeps_its_mode(mode, embeddings_enabled, previous, signals);
    law_ended_run_has_a_final_status(mode, embeddings_enabled, previous, signals);
    if exists|rows: u64|
        end.vectors == count_of(rows) && #[trigger] heard(Ask::CountRows, Signal::Rows(Some(rows))) {
        let rows = choose|rows: u64|
            end.vectors == count_of(rows) && #[trigger] heard(
                Ask::CountRows,
                Signal::Rows(Some(rows)),
            );
        assert(answered(c, signals, Ask::CountRows, Signal::Rows(Some(rows))));
    }
}

/// While chunks are being stored, the status, shown and on disk, says how many
/// files were split into how many chunks, and how much of them is stored.
pub proof fn law_status_follows_the_batches(
    mode: Mode,
    embeddings_enabled: bool,
    previous: Option<IndexStatus>,
    signals: Seq<Signal>,
)
    requires
        ({
            let c = started(mode, embeddings_enabled, previous);
            &&& after(c, signals).phase == Phase::Populate
            &&& stored_embeddings(c, signals) <= usize::MAX
            &&& stored_vectors(c, signals) <= usize::MAX
        }),
    ensures
        ({
            let c = started(mode, embeddings_enabled, previous);
            let end = after(c, signals);
            &&& record_after(c, first_record(), signals) == Some(end.status)
            &&& end.status.status == IndexState::Indexing
            &&& end.status.total_files == end.selected_files
            &&& end.status.processed_files == end.selected_files
            &&& answered(c, signals, Ask::SplitFiles, Signal::Chunked(end.status.total_chunks))
            &&& end.status.embeddings_generated == stored_embeddings(c, signals)
            &&& end.status.vectors_inserted == stored_vectors(c, signals)
        }),
{
    lemma_run_stands(mode, embeddings_enabled, previous, signals);
    law_counts_sum_up_the_batches(mode, embeddings_enabled, previous, signals);
}

/// A run is refused only for what it was told.
pub proof fn law_refusal_has_its_cause(
    mode: Mode,
    embeddings_enabled: bool,
    previous: Option<IndexStatus>,
    signals: Seq<Signal>,
)
    ensures
        ({
            let c = started(mode, embeddings_enabled, previous);
            let told = |ask: Ask, reply: Signal| answered(c, signals, ask, reply);
            after(c, signals).phase matches Phase::Finished(Outcome::Refused(refusal))
                ==> match refusal {
                Refusal::LexicalIndexMissing => mode == Mode::Update && (told(
                    Ask::LookForIndex,
                    Signal::Looked { manifest: Some(true), lexical: Some(false) },
                ) || told(
                    Ask::LookForIndex,
                    Signal::Looked { manifest: Some(true), lexical: None },
                )),
                Refusal::CollectionUnknown => !embeddings_enabled && told(
                    Ask::HasCollection,
                    Signal::Collection(None),
                ),
                Refusal::RecordUnreadable => told(
                    Ask::ReadBackendRecord,
                    Signal::Record(RecordFact::Unreadable),
                ),
                Refusal::SemanticIndexExists => !embeddings_enabled && ((previous is Some
                    && previous->0.vectors_inserted > 0) || told(
                    Ask::HasCollection,
                    Signal::Collection(Some(true)),
                ) || told(Ask::ReadBackendRecord, Signal::Record(RecordFact::Same)) || told(
                    Ask::ReadBackendRecord,
                    Signal::Record(RecordFact::Differs),
                )),
                Refusal::BackendDiffers => embeddings_enabled && told(
                    Ask::ReadBackendRecord,
                    Signal::Record(RecordFact::Differs),
                ),
                Refusal::WalkFailed => told(Ask::WalkFiles, Signal::Walked(None)),
                Refusal::ManifestUnreadable => told(
                    Ask::LoadManifest,
                    Signal::Manifest(ManifestFact::Unreadable),
                ),
                Refusal::ManifestMissing => mode == Mode::Update && told(
                    Ask::LoadManifest,
                    Signal::Manifest(ManifestFact::Absent),
                ),
                Refusal::ManifestIncompatible => mode == Mode::Update && told(
                    Ask::LoadManifest,
                    Signal::Manifest(ManifestFact::Incompatible),
                ),
                Refusal::DiffFailed => told(Ask::DiffManifest, Signal::Diff(None)),
                Refusal::CollectionLookupFailed => embeddings_enabled && told(
                    Ask::HasCollection,
                    Signal::Collection(None),
                ),
                Refusal::CollectionMissing => mode == Mode::Update && embeddings_enabled && told(
                    Ask::HasCollection,
                    Signal::Collection(Some(false)),
                ),
            }
        }),
{
    lemma_run_stands(mode, embeddings_enabled, previous, signals);
    law_run_keeps_its_mode(mode, embeddings_enabled, previous, signals);
}

/// A run fails only for what it was told, or where it had chunks to embed and no
/// embedding, or no vector, came of them.
pub proof fn law_failure_has_its_cause(
    mode: Mode,
    embeddings_enabled: bool,
    previous: Option<IndexStatus>,
    signals: Seq<Signal>,
)
    requires
        stored_embeddings(started(mode, embeddings_enabled, previous), signals) <= usize::MAX,
        stored_vectors(started(mode, embeddings_enabled, previous), signals) <= usize::MAX,
    ensures
        ({
            let c = started(mode, embeddings_enabled, previous);
            let end = after(c, signals);
            let told = |ask: Ask, reply: Signal| answered(c, signals, ask, reply);
            end.phase matches Phase::Finished(Outcome::Failed(failure)) ==> match failure {
                Failure::PrepareVectors => embeddings_enabled && (told(
                    Ask::HasCollection,
                    Signal::Collection(None),
                ) || told(Ask::DropCollection, Signal::Done(false)) || told(
                    Ask::CreateCollection,
                    Signal::Done(false),
                )),
                Failure::PrepareLexical => told(
                    Ask::PrepareLexical { clear: end.full_reindex },
                    Signal::Done(false),
                ),
                Failure::DeleteVectors => told(Ask::DeleteStaleVectors, Signal::Done(false)),
                Failure::WriteManifest => told(
                    Ask::WriteManifest { cached_fingerprints: end.diff is Some },
                    Signal::Done(false),
                ),
                Failure::RecordBackend => told(Ask::WriteBackendRecord, Signal::Done(false)),
                Failure::UpdateLexical => told(
                    Ask::Populate { embed: embeddings_enabled && end.chunks > 0 },
                    Signal::Populated { lexical_stored: false },
                ),
                Failure::BatchesFailed => told(
                    Ask::Populate { embed: true },
                    Signal::BatchFailed,
                ),
                Failure::NoEmbeddings => embeddings_enabled && end.chunks > 0
                    && stored_embeddings(c, signals) == 0 && !told(
                    Ask::Populate { embed: true },
                    Signal::BatchFailed,
                ),
                Failure::NoVectors => embeddings_enabled && end.chunks > 0 && stored_embeddings(
                    c,
                    signals,
                ) > 0 && end.vectors == 0 && !told(
                    Ask::Populate { embed: true },
                    Signal::BatchFailed,
                ),
            }
        }),
{
    lemma_run_stands(mode, embeddings_enabled, previous, signals);
    law_run_keeps_its_mode(mode, embeddings_enabled, previous, signals);
    law_counts_sum_up_the_batches(mode, embeddings_enabled, previous, signals);
}

/// An answer with which a run cannot go on ends it, in a way that says which
/// answer it was.
pub proof fn law_bad_answer_ends_the_run(
    mode: Mode,
    embeddings_enabled: bool,
    previous: Option<IndexStatus>,
    signals: Seq<Signal>,
    ask: Ask,
    reply: Signal,
)
    requires
        answered(started(mode, embeddings_enabled, previous), signals, ask, reply),
    ensures
        ({
            let phase = after(started(mode, embeddings_enabled, previous), signals).phase;
            match (ask, reply) {
                (Ask::LookForIndex, Signal::Looked { manifest, lexical }) => manifest == Some(true)
                    && lexical != Some(true) ==> phase == Phase::Finished(
                    Outcome::Refused(Refusal::LexicalIndexMissing),
                ),
                (Ask::HasCollection, Signal::Collection(None)) => if embeddings_enabled {
                    phase == Phase::Finished(Outcome::Refused(Refusal::CollectionLookupFailed))
                        || phase == Phase::Finished(Outcome::Failed(Failure::PrepareVectors))
                } else {
                    phase == Phase::Finished(Outcome::Refused(Refusal::CollectionUnknown))
                },
                (Ask::ReadBackendRecord, Signal::Record(RecordFact::Unreadable)) => phase
                    == Phase::Finished(Outcome::Refused(Refusal::RecordUnreadable)),
                (Ask::ReadBackendRecord, Signal::Record(RecordFact::Differs)) => phase
                    == Phase::Finished(
                    Outcome::Refused(
                        if embeddings_enabled {
                            Refusal::BackendDiffers
                        } else {
                            Refusal::SemanticIndexExists
                        },
                    ),
                ),
                (Ask::ReadBackendRecord, Signal::Record(RecordFact::Same)) => !embeddings_enabled
                    ==> phase == Phase::Finished(Outcome::Refused(Refusal::SemanticIndexExists)),
                (Ask::WalkFiles, Signal::Walked(None)) => phase == Phase::Finished(
                    Outcome::Refused(Refusal::WalkFailed),
                ),
                (Ask::LoadManifest, Signal::Manifest(ManifestFact::Unreadable)) => phase
                    == Phase::Finished(Outcome::Refused(Refusal::ManifestUnreadable)),
                (Ask::DiffManifest, Signal::Diff(None)) => phase == Phase::Finished(
                    Outcome::Refused(Refusal::DiffFailed),
                ),
                (Ask::Populate { .. }, Signal::Populated { lexical_stored: false }) => phase
                    == Phase::Finished(Outcome::Failed(Failure::UpdateLexical)),
                (Ask::DropCollection, Signal::Done(false)) => phase == Phase::Finished(
                    Outcome::Failed(Failure::PrepareVectors),
                ),
                (Ask::CreateCollection, Signal::Done(false)) => phase == Phase::Finished(
                    Outcome::Failed(Failure::PrepareVectors),
                ),
                (Ask::PrepareLexical { .. }, Signal::Done(false)) => phase == Phase::Finished(
                    Outcome::Failed(Failure::PrepareLexical),
                ),
                (Ask::DeleteStaleVectors, Signal::Done(false)) => phase == Phase::Finished(
                    Outcome::Failed(Failure::DeleteVectors),
                ),
                (Ask::WriteManifest { .. }, Signal::Done(false)) => phase == Phase::Finished(
                    Outcome::Failed(Failure::WriteManifest),
                ),
                (Ask::WriteBackendRecord, Signal::Done(false)) => phase == Phase::Finished(
                    Outcome::Failed(Failure::RecordBackend),
                ),
                _ => true,
            }
        }),
{
    let c = started(mode, embeddings_enabled, previous);
    let heard = |ask: Ask, reply: Signal| answered(c, signals, ask, reply);
    lemma_run_stands(mode, embeddings_enabled, previous, signals);
    law_run_keeps_its_mode(mode, embeddings_enabled, previous, signals);
    assert(heard(ask, reply));
}

/// A run that got past its first questions was told what lets it go on: one
/// without embeddings that there is neither a collection nor a provenance record,
/// one with embeddings that the record is absent or names the backend in use, and
/// an update that no manifest stands without a lexical index.
pub proof fn law_run_goes_on_only_where_it_may(
    mode: Mode,
    embeddings_enabled: bool,
    previous: Option<IndexStatus>,
    signals: Seq<Signal>,
)
    ensures
        ({
            let c = started(mode, embeddings_enabled, previous);
            let end = after(c, signals);
            succeeded(end) || failed_late(end) || changes(ask_of(end)) || ask_of(end)
                == Ask::WalkFiles ==> {
                &&& !embeddings_enabled ==> answered(
                    c,
                    signals,
                    Ask::HasCollection,
                    Signal::Collection(Some(false)),
                ) && answered(
                    c,
                    signals,
                    Ask::ReadBackendRecord,
                    Signal::Record(RecordFact::Absent),
                ) && (previous is Some ==> previous->0.vectors_inserted == 0)
                &&& embeddings_enabled ==> answered(
                    c,
                    signals,
                    Ask::ReadBackendRecord,
                    Signal::Record(RecordFact::Absent),
                ) || answered(
                    c,
                    signals,
                    Ask::ReadBackendRecord,
                    Signal::Record(RecordFact::Same),
                )
                &&& mode == Mode::Update ==> exists|
                    manifest: Option<bool>,
                    lexical: Option<bool>,
                | #[trigger]
                    answered(c, signals, Ask::LookForIndex, Signal::Looked { manifest, lexical })
                        && (manifest != Some(true) || lexical == Some(true))
            }
        }),
{
    let c = started(mode, embeddings_enabled, previous);
    let end = after(c, signals);
    let heard = |ask: Ask, reply: Signal| answered(c, signals, ask, reply);
    lemma_run_stands(mode, embeddings_enabled, previous, signals);
    law_run_keeps_its_mode(mode, embeddings_enabled, previous, signals);
    if mode == Mode::Update && end.phase != Phase::LexicalGate && !refused(end) {
        let (manifest, lexical) = choose|manifest: Option<bool>, lexical: Option<bool>|
            #[trigger] heard(Ask::LookForIndex, Signal::Looked { manifest, lexical }) && !(manifest
                == Some(true) && lexical != Some(true));
        assert(answered(c, signals, Ask::LookForIndex, Signal::Looked { manifest, lexical }));
    }
}

/// A run begins with what could forbid it: an update looks for the index, a run
/// with embeddings reads the provenance record, and one without looks for a
/// collection. Nothing is counted yet.
pub proof fn law_run_begins_with_what_could_forbid_it(
    mode: Mode,
    embeddings_enabled: bool,
    previous: Option<IndexStatus>,
)
    ensures
        ({
            let c = started(mode, embeddings_enabled, previous);
            &&& mode == Mode::Update ==> ask_of(c) == Ask::LookForIndex
            &&& mode != Mode::Update && embeddings_enabled ==> ask_of(c) == Ask::ReadBackendRecord
            &&& mode != Mode::Update && !embeddings_enabled ==> ask_of(c) == Ask::HasCollection
            &&& c.mode == mode && c.embeddings_enabled == embeddings_enabled && c.previous
                == previous
            &&& c.status.status == IndexState::Indexing
            &&& c.status.total_files == 0 && c.status.processed_files == 0 && c.status.total_chunks
                == 0 && c.status.embeddings_generated == 0 && c.status.vectors_inserted == 0
        }),
{
}

/// A run that looks for the collection it is about to fill creates it exactly
/// where there is none.
pub proof fn law_missing_collection_is_created(c: RunControl)
    requires
        c.phase == Phase::FindCurrent,
    ensures
        ask_of(step(c, Signal::Collection(Some(false))).0) == Ask::CreateCollection,
        ask_of(step(c, Signal::Collection(Some(true))).0) == (Ask::PrepareLexical {
            clear: c.full_reindex,
        }),
{
    assert(ask_of(prepare_step(c, Signal::Collection(Some(false))).0) == Ask::CreateCollection);
    assert(ask_of(prepare_step(c, Signal::Collection(Some(true))).0) == (Ask::PrepareLexical {
        clear: c.full_reindex,
    }));
}

/// A rebuild that looks for an old collection drops it exactly where there is one.
pub proof fn law_old_collection_is_dropped(c: RunControl)
    requires
        c.phase == Phase::FindOld,
    ensures
        ask_of(step(c, Signal::Collection(Some(true))).0) == Ask::DropCollection,
        ask_of(step(c, Signal::Collection(Some(false))).0) == Ask::HasCollection,
        step(c, Signal::Collection(Some(false))).0.phase == Phase::FindCurrent,
        step(RunControl { phase: Phase::DropOld, ..c }, Signal::Done(true)).0.phase
            == Phase::FindCurrent,
{
    let dropping = RunControl { phase: Phase::DropOld, ..c };
    assert(ask_of(prepare_step(c, Signal::Collection(Some(true))).0) == Ask::DropCollection);
    assert(prepare_step(c, Signal::Collection(Some(false))).0.phase == Phase::FindCurrent);
    assert(prepare_step(dropping, Signal::Done(true)).0.phase == Phase::FindCurrent);
}

/// A report of files split so far shows every tenth count, on disk too, and
/// changes nothing else.
pub proof fn law_every_tenth_split_file_is_shown(c: RunControl, count: usize)
    requires
        c.phase == Phase::Split,
    ensures
        ({
            let (then, persist) = step(c, Signal::FileSplit(count));
            &&& then.phase == c.phase && then.chunks == c.chunks && then.selected_files
                == c.selected_files && then.vectors == c.vectors && then.embeddings == c.embeddings
            &&& then.status.total_files == c.status.total_files && then.status.total_chunks
                == c.status.total_chunks && then.status.status == c.status.status
                && then.status.embeddings_generated == c.status.embeddings_generated
                && then.status.vectors_inserted == c.status.vectors_inserted
            &&& count % 10 == 0 ==> then.status.processed_files == count && persist
                == Persist::Write(then.status)
            &&& count % 10 != 0 ==> then.status.processed_files == c.status.processed_files
                && persist == Persist::Keep
        }),
{
    let (then, persist) = fill_step(c, Signal::FileSplit(count));
    assert(step(c, Signal::FileSplit(count)) == (then, persist));
}

/// What a step that ends a run in failure leaves in the status and on disk: the
/// counts of chunks and files as they were, and those of embeddings and vectors as
/// they were or as on record from before, whichever is larger; after a rebuild
/// began, as they were.
spec fn fails_with_evidence(c: RunControl, persist: Persist, then: RunControl) -> bool {
    failed_late(then) ==> {
        &&& then.status.status == IndexState::Failed
        &&& persist == Persist::Write(then.status)
        &&& then.status.total_files == c.status.total_files
        &&& then.status.processed_files == c.status.processed_files
        &&& then.status.total_chunks == c.status.total_chunks
        &&& c.full_reindex || c.previous is None ==> then.status.vectors_inserted
            == c.status.vectors_inserted && then.status.embeddings_generated
            == c.status.embeddings_generated
        &&& !c.full_reindex && c.previous is Some ==> {
            let known = c.previous->0;
            &&& then.status.vectors_inserted == vstd::math::max(
                c.status.vectors_inserted as int,
                known.vectors_inserted as int,
            )
            &&& then.status.embeddings_generated == vstd::math::max(
                c.status.embeddings_generated as int,
                known.embeddings_generated as int,
            )
        }
    }
}

spec fn refuses_without_trace(c: RunControl, persist: Persist, then: RunControl) -> bool {
    refused(then) ==> {
        &&& then.status == (IndexStatus { status: IndexState::Failed, ..c.status })
        &&& c.previous is Some ==> persist == Persist::Write(c.previous->0)
        &&& c.previous is None ==> persist == Persist::Remove
    }
}

proof fn lemma_ending_step(c: RunControl, signal: Signal)
    requires
        !(c.phase is Finished),
    ensures
        fails_with_evidence(c, step(c, signal).1, step(c, signal).0),
        refuses_without_trace(c, step(c, signal).1, step(c, signal).0),
{
    match c.phase {
        Phase::LexicalGate | Phase::CollectionGate | Phase::RecordGate | Phase::BackendGate => {
            let (then, persist) = gate_step(c, signal);
            assert(fails_with_evidence(c, persist, then) && refuses_without_trace(c, persist, then));
        },
        Phase::Walk | Phase::Manifest | Phase::Diff | Phase::CollectionCheck | Phase::RowsUpToDate | Phase::RecordUpToDate => {
            let (then, persist) = plan_step(c, signal);
            assert(fails_with_evidence(c, persist, then) && refuses_without_trace(c, persist, then));
        },
        Phase::FindOld | Phase::DropOld | Phase::FindCurrent | Phase::Create | Phase::PrepareLexical | Phase::DeleteVectors => {
            let (then, persist) = prepare_step(c, signal);
            assert(fails_with_evidence(c, persist, then) && refuses_without_trace(c, persist, then));
        },
        Phase::ManifestOnly | Phase::RowsOnly | Phase::RecordOnly => {
            let (then, persist) = unread_step(c, signal);
            assert(fails_with_evidence(c, persist, then) && refuses_without_trace(c, persist, then));
        },
        Phase::Split | Phase::Populate | Phase::RowsAfter | Phase::ManifestAfter | Phase::RecordAfter => {
            let (then, persist) = fill_step(c, signal);
            assert(fails_with_evidence(c, persist, then) && refuses_without_trace(c, persist, then));
        },
        Phase::Finished(_) => {},
    }
}

/// A step that ends a run in failure keeps the counts of chunks and files, and
/// writes the status. The counts of embeddings and vectors become the larger of
/// what was counted and what was on record; once a rebuild began, what was
/// counted stands alone.
pub proof fn law_failing_step_keeps_the_larger_counts(c: RunControl, signal: Signal)
    requires
        !(c.phase is Finished),
        failed_late(step(c, signal).0),
    ensures
        ({
            let (then, persist) = step(c, signal);
            let shown = c.status;
            &&& then.status.status == IndexState::Failed
            &&& persist == Persist::Write(then.status)
            &&& then.status.total_files == shown.total_files
            &&& then.status.processed_files == shown.processed_files
            &&& then.status.total_chunks == shown.total_chunks
            &&& c.full_reindex || c.previous is None ==> then.status.vectors_inserted
                == shown.vectors_inserted && then.status.embeddings_generated
                == shown.embeddings_generated
            &&& !c.full_reindex && c.previous is Some ==> then.status.vectors_inserted
                == vstd::math::max(
                shown.vectors_inserted as int,
                c.previous->0.vectors_inserted as int,
            ) && then.status.embeddings_generated == vstd::math::max(
                shown.embeddings_generated as int,
                c.previous->0.embeddings_generated as int,
            )
        }),
{
    lemma_ending_step(c, signal);
}

/// A step that refuses a run shows it as failed with its counts as they were, and
/// puts back the record from before the run, or removes it where there was none.
pub proof fn law_refusing_step_puts_the_record_back(c: RunControl, signal: Signal)
    requires
        !(c.phase is Finished),
        refused(step(c, signal).0),
    ensures
        ({
            let (then, persist) = step(c, signal);
            &&& then.status == (IndexStatus { status: IndexState::Failed, ..c.status })
            &&& c.previous is Some ==> persist == Persist::Write(c.previous->0)
            &&& c.previous is None ==> persist == Persist::Remove
        }),
{
    lemma_ending_step(c, signal);
}

/// Nothing is compared before the files are known, and what is compared is never
/// compared again.
pub proof fn law_comparison_comes_after_the_walk(
    mode: Mode,
    embeddings_enabled: bool,
    previous: Option<IndexStatus>,
    signals: Seq<Signal>,
)
    ensures
        ({
            let end = after(started(mode, embeddings_enabled, previous), signals);
            ask_of(end) == Ask::WalkFiles || ask_of(end) == Ask::LoadManifest || ask_of(end)
                == Ask::DiffManifest ==> end.diff is None && !end.full_reindex
        }),
{
    lemma_run_stands(mode, embeddings_enabled, previous, signals);
}

/// A run changes things in an order that a break cannot betray. The lexical index is
/// prepared before files are split, and only with a collection in place where the run
/// embeds; stale vectors go before new ones come; the manifest is written only once the
/// chunks are stored, or there is nothing to read; and the provenance record only once
/// the manifest is, or where it was up to date.
pub proof fn law_steps_come_in_a_safe_order(
    mode: Mode,
    embeddings_enabled: bool,
    previous: Option<IndexStatus>,
    signals: Seq<Signal>,
)
    ensures
        ({
            let c = started(mode, embeddings_enabled, previous);
            let end = after(c, signals);
            let prepared = Ask::PrepareLexical { clear: end.full_reindex };
            &&& ask_of(end) is PrepareLexical && embeddings_enabled ==> answered(
                c,
                signals,
                Ask::HasCollection,
                Signal::Collection(Some(true)),
            ) || answered(c, signals, Ask::CreateCollection, Signal::Done(true))
            &&& ask_of(end) == Ask::DeleteStaleVectors || ask_of(end) == Ask::SplitFiles || ask_of(
                end,
            ) is Populate || ask_of(end) is WriteManifest ==> answered(
                c,
                signals,
                prepared,
                Signal::Done(true),
            )
            &&& (ask_of(end) == Ask::SplitFiles || ask_of(end) is Populate || ask_of(
                end,
            ) is WriteManifest) && end.stale && embeddings_enabled ==> answered(
                c,
                signals,
                Ask::DeleteStaleVectors,
                Signal::Done(true),
            )
            &&& ask_of(end) matches Ask::Populate { embed } ==> embed == (embeddings_enabled
                && end.chunks > 0)
            &&& ask_of(end) matches Ask::WriteManifest { cached_fingerprints }
                ==> cached_fingerprints == end.diff is Some
            &&& ask_of(end) is Populate ==> answered(
                c,
                signals,
                Ask::SplitFiles,
                Signal::Chunked(end.chunks),
            )
            &&& ask_of(end) is WriteManifest && end.selected_files > 0 ==> answered(
                c,
                signals,
                Ask::Populate { embed: embeddings_enabled && end.chunks > 0 },
                Signal::Populated { lexical_stored: true },
            )
            &&& ask_of(end) == Ask::WriteBackendRecord ==> answered(
                c,
                signals,
                Ask::WriteManifest { cached_fingerprints: end.diff is Some },
                Signal::Done(true),
            ) || (end.diff is Some && end.diff->0.empty)
        }),
{
    lemma_run_stands(mode, embeddings_enabled, previous, signals);
    law_run_keeps_its_mode(mode, embeddings_enabled, previous, signals);
}

/// Until chunks are stored, the record on disk says that indexing is under way, with no
/// chunk, embedding or vector counted.
pub proof fn law_record_says_that_a_run_is_under_way(
    mode: Mode,
    embeddings_enabled: bool,
    previous: Option<IndexStatus>,
    signals: Seq<Signal>,
)
    ensures
        ({
            let c = started(mode, embeddings_enabled, previous);
            let end = after(c, signals);
            let record = record_after(c, first_record(), signals);
            ask_of(end) != Ask::Nothing && end.phase != Phase::RecordUpToDate && end.phase
                != Phase::Populate && end.phase != Phase::RowsAfter && end.phase
                != Phase::ManifestAfter && end.phase != Phase::RecordAfter ==> record is Some
                && record->0.status == IndexState::Indexing && record->0.total_chunks == 0
                && record->0.embeddings_generated == 0 && record->0.vectors_inserted == 0
        }),
{
    lemma_run_stands(mode, embeddings_enabled, previous, signals);
}

/// A run that compared the files, and then finds its collection gone, rebuilds, whatever
/// the comparison found; an update is refused for that. Where the collection is there,
/// the run goes by the comparison.
pub proof fn law_missing_collection_means_a_rebuild(c: RunControl)
    requires
        c.phase == Phase::CollectionCheck,
        c.embeddings_enabled,
        c.diff is Some,
        !c.full_reindex,
    ensures
        ask_of(c) == Ask::HasCollection,
        ({
            let gone = step(c, Signal::Collection(Some(false))).0;
            let there = step(c, Signal::Collection(Some(true))).0;
            &&& c.mode == Mode::Update ==> gone.phase == Phase::Finished(
                Outcome::Refused(Refusal::CollectionMissing),
            )
            &&& c.mode != Mode::Update ==> gone.full_reindex && gone.selected_files == c.total_files
                && !gone.stale && gone.phase == Phase::FindOld
            &&& !there.full_reindex
            &&& !c.diff->0.empty ==> there.selected_files == c.diff->0.changed_files && there.stale
                == c.diff->0.stale && there.phase == Phase::FindCurrent
            &&& c.diff->0.empty ==> there.phase == Phase::RowsUpToDate || there.phase
                == Phase::RecordUpToDate
        }),
{
    let gone = plan_step(c, Signal::Collection(Some(false))).0;
    let there = plan_step(c, Signal::Collection(Some(true))).0;
    assert(step(c, Signal::Collection(Some(false))).0 == gone);
    assert(step(c, Signal::Collection(Some(true))).0 == there);
}

} // verus!
