//! What holds of every indexing run, whatever its host reports.

use crate::engine::control::{
    ask_of, before, fill_step, gate_step, plan_step, prepare_step, semantic_gate, started, step,
    unread_step, Ask, DiffFact, ManifestFact, Mode, Next, Outcome, Phase, RecordFact, RunControl, Signal,
};
use crate::engine::status::{recorded, Persist};
use crate::types::{nothing_counted, IndexState, IndexStatus};
use vstd::prelude::*;

verus! {

/// What follows a report.
#[verifier::opaque]
pub open spec fn next(c: RunControl, signal: Signal) -> Next {
    step(c, signal)
}

/// The state of a run after the given reports.
pub open spec fn after(c: RunControl, signals: Seq<Signal>) -> RunControl
    decreases signals.len(),
{
    if signals.len() == 0 {
        c
    } else {
        next(after(c, signals.drop_last()), signals.last()).0
    }
}

/// The status record on disk after the given reports.
pub open spec fn record_after(
    c: RunControl,
    record: Option<IndexStatus>,
    signals: Seq<Signal>,
) -> Option<IndexStatus>
    decreases signals.len(),
{
    if signals.len() == 0 {
        record
    } else {
        recorded(
            next(after(c, signals.drop_last()), signals.last()).1,
            record_after(c, record, signals.drop_last()),
        )
    }
}

/// The run asked `ask` at some time.
pub open spec fn asked(c: RunControl, signals: Seq<Signal>, ask: Ask) -> bool
    decreases signals.len(),
{
    ask_of(after(c, signals)) == ask || (signals.len() > 0 && asked(c, signals.drop_last(), ask))
}

/// The run asked for a change of the index, its manifest or its provenance record
/// at some time.
pub open spec fn asked_for_change(c: RunControl, signals: Seq<Signal>) -> bool
    decreases signals.len(),
{
    changes(ask_of(after(c, signals))) || (signals.len() > 0 && asked_for_change(
        c,
        signals.drop_last(),
    ))
}

/// The run asked `ask` at some time, and the host reported `reply`.
pub open spec fn answered(c: RunControl, signals: Seq<Signal>, ask: Ask, reply: Signal) -> bool
    decreases signals.len(),
{
    signals.len() > 0 && (answered(c, signals.drop_last(), ask, reply) || (ask_of(
        after(c, signals.drop_last()),
    ) == ask && signals.last() == reply))
}

pub open spec fn changes(ask: Ask) -> bool {
    match ask {
        Ask::DropCollection => true,
        Ask::CreateCollection => true,
        Ask::PrepareLexical { .. } => true,
        Ask::DeleteStaleVectors => true,
        Ask::WriteManifest { .. } => true,
        Ask::WriteBackendRecord => true,
        Ask::Populate { .. } => true,
        _ => false,
    }
}

/// The record that a run writes at its start.
pub open spec fn first_record() -> Option<IndexStatus> {
    Some(nothing_counted(IndexState::Indexing))
}

pub open spec fn refused(c: RunControl) -> bool {
    c.phase matches Phase::Finished(outcome) && outcome is Refused
}

pub open spec fn failed_late(c: RunControl) -> bool {
    c.phase matches Phase::Finished(outcome) && outcome is Failed
}

pub open spec fn succeeded(c: RunControl) -> bool {
    c.phase matches Phase::Finished(outcome) && !(outcome is Refused) && !(outcome is Failed)
}

/// The signal answers the question, and does not only report progress.
pub open spec fn settles_ask(ask: Ask, signal: Signal) -> bool {
    match ask {
        Ask::LookForIndex => signal is Looked,
        Ask::HasCollection => signal is Collection,
        Ask::ReadBackendRecord => signal is Record,
        Ask::WalkFiles => signal is Walked,
        Ask::LoadManifest => signal is Manifest,
        Ask::DiffManifest => signal is Diff,
        Ask::CountRows => signal is Rows,
        Ask::SplitFiles => signal is Chunked,
        Ask::Populate { .. } => signal is Populated,
        Ask::Nothing => false,
        _ => signal is Done,
    }
}

/// How many answers a run needs at most from a phase on.
pub open spec fn distance(phase: Phase) -> nat {
    match phase {
        Phase::LexicalGate => 18,
        Phase::CollectionGate => 17,
        Phase::RecordGate => 16,
        Phase::BackendGate => 16,
        Phase::Walk => 15,
        Phase::Manifest => 14,
        Phase::Diff => 13,
        Phase::CollectionCheck => 12,
        Phase::FindOld => 11,
        Phase::DropOld => 10,
        Phase::FindCurrent => 9,
        Phase::Create => 8,
        Phase::PrepareLexical => 7,
        Phase::DeleteVectors => 6,
        Phase::Split => 5,
        Phase::Populate => 4,
        Phase::RowsAfter => 3,
        Phase::ManifestAfter => 2,
        Phase::RecordAfter => 1,
        Phase::ManifestOnly => 3,
        Phase::RowsOnly => 2,
        Phase::RecordOnly => 1,
        Phase::RowsUpToDate => 2,
        Phase::RecordUpToDate => 1,
        Phase::Finished(_) => 0,
    }
}

/// Nothing is decided yet.
spec fn undecided(c: RunControl) -> bool {
    match c.phase {
        Phase::LexicalGate | Phase::CollectionGate | Phase::RecordGate | Phase::BackendGate => true,
        Phase::Walk | Phase::Manifest | Phase::Diff | Phase::CollectionCheck => true,
        Phase::RowsUpToDate => true,
        _ => false,
    }
}

/// The run is still at the gates.
spec fn at_gate(c: RunControl) -> bool {
    match c.phase {
        Phase::LexicalGate | Phase::CollectionGate | Phase::RecordGate | Phase::BackendGate => true,
        _ => false,
    }
}

/// Phases that only a run with embeddings enters.
spec fn semantic(phase: Phase) -> bool {
    match phase {
        Phase::BackendGate | Phase::CollectionCheck | Phase::RowsUpToDate => true,
        Phase::RecordUpToDate | Phase::FindOld | Phase::DropOld | Phase::FindCurrent => true,
        Phase::Create | Phase::DeleteVectors | Phase::RowsOnly | Phase::RecordOnly => true,
        Phase::RowsAfter | Phase::RecordAfter => true,
        _ => false,
    }
}

/// What holds of a run at all times, of its state, the record on disk, and
/// whether it asked for a change.
spec fn sound(c: RunControl, record: Option<IndexStatus>, changed: bool) -> bool {
    &&& undecided(c) ==> !changed && !c.full_reindex && record == Some(c.status) && c.status
        == nothing_counted(IndexState::Indexing)
    &&& (c.phase == Phase::FindOld || c.phase == Phase::DropOld) ==> c.full_reindex
    &&& refused(c) ==> !changed && record == c.previous && c.status.status == IndexState::Failed
    &&& c.full_reindex ==> c.mode != Mode::Update
    &&& c.mode == Mode::Rebuild ==> c.diff is None && (undecided(c) || refused(c)
        || c.full_reindex)
    &&& c.phase == Phase::Diff || c.phase == Phase::CollectionCheck ==> c.mode != Mode::Rebuild
    &&& !c.embeddings_enabled ==> !semantic(c.phase) && c.embeddings == 0 && c.vectors == 0
    &&& c.embeddings_enabled ==> c.phase != Phase::CollectionGate && c.phase != Phase::RecordGate
    &&& !c.embeddings_enabled ==> at_gate(c) || refused(c) || (!c.has_semantic && before(
        c,
    ).vectors_inserted == 0)
    &&& succeeded(c) ==> c.status.status == IndexState::Completed && record == Some(c.status)
        && c.status.total_files == c.total_files && c.status.processed_files == c.total_files
        && c.status.vectors_inserted == c.vectors
    &&& c.phase == Phase::RecordUpToDate ==> c.status.status == IndexState::Completed && record
        == Some(c.status) && c.status.total_files == c.total_files && c.status.processed_files
        == c.total_files && c.status.vectors_inserted == c.vectors
    &&& failed_late(c) ==> c.status.status == IndexState::Failed && record == Some(c.status)
    &&& failed_late(c) && !c.full_reindex && c.previous is Some ==> c.status.vectors_inserted
        >= before(c).vectors_inserted && c.status.embeddings_generated >= before(
        c,
    ).embeddings_generated
    &&& !(c.phase is Finished) && c.phase != Phase::RecordUpToDate ==> c.status.status
        == IndexState::Indexing && record is Some && record->0.status == IndexState::Indexing
    &&& (c.phase == Phase::RecordUpToDate || c.phase == Phase::Finished(Outcome::UpToDate)) ==>
        !c.full_reindex && c.diff is Some && c.diff->0.empty && c.status.total_chunks == before(
        c,
    ).total_chunks && c.status.embeddings_generated == before(c).embeddings_generated
    &&& c.phase == Phase::RowsUpToDate ==> c.diff is Some && c.diff->0.empty
    &&& c.phase == Phase::CollectionCheck ==> c.diff is Some
    &&& (c.phase == Phase::RecordUpToDate || c.phase == Phase::Finished(Outcome::UpToDate)) && (
    before(c).status == IndexState::Completed && before(c).vectors_inserted > 0)
        && c.embeddings_enabled ==> c.vectors == before(c).vectors_inserted
    &&& c.phase == Phase::RowsUpToDate ==> !(before(c).status == IndexState::Completed && before(
        c,
    ).vectors_inserted > 0)
    &&& (c.phase == Phase::RowsAfter || c.phase == Phase::ManifestAfter || c.phase
        == Phase::RecordAfter || c.phase == Phase::Finished(Outcome::Indexed)) && c.chunks > 0
        && c.embeddings_enabled ==> c.vectors > 0 && c.embeddings > 0 && !c.batch_failed
}

/// What a single step keeps.
spec fn kept(
    c: RunControl,
    record: Option<IndexStatus>,
    changed: bool,
    following: Next,
) -> bool {
    &&& sound(following.0, recorded(following.1, record), changed || changes(ask_of(following.0)))
    &&& following.0.mode == c.mode
    &&& following.0.embeddings_enabled == c.embeddings_enabled
    &&& following.0.previous == c.previous
}

/// What a single step tells of the question and its answer.
spec fn telling(c: RunControl, signal: Signal, next: RunControl) -> bool {
    &&& refused(c) ==> refused(next)
    &&& c.mode == Mode::Update && ask_of(c) == Ask::LoadManifest && (signal == Signal::Manifest(
        ManifestFact::Absent,
    ) || signal == Signal::Manifest(ManifestFact::Incompatible)) ==> refused(next)
    &&& ask_of(c) == Ask::ReadBackendRecord && signal == Signal::Record(RecordFact::Differs) ==>
        refused(next)
    &&& !c.embeddings_enabled && ask_of(c) == Ask::ReadBackendRecord && (signal == Signal::Record(
        RecordFact::Same,
    ) || signal == Signal::Record(RecordFact::Unreadable)) ==> refused(next)
    &&& !c.embeddings_enabled && ask_of(c) == Ask::HasCollection && signal == Signal::Collection(
        Some(true),
    ) ==> next.phase == Phase::RecordGate && next.has_semantic
    &&& c.phase == Phase::RecordGate && c.has_semantic ==> next == c || refused(next)
    &&& c.embeddings_enabled && at_gate(c) && !at_gate(next) && !refused(next) ==> ask_of(c)
        == Ask::ReadBackendRecord && (signal == Signal::Record(RecordFact::Absent) || signal
        == Signal::Record(RecordFact::Same))
    &&& c.embeddings_enabled && succeeded(next) && !succeeded(c) ==> ask_of(c)
        == Ask::WriteBackendRecord && signal == Signal::Done(true)
    &&& manifest_written(next) && !manifest_written(c) ==> ask_of(c) == (Ask::WriteManifest {
        cached_fingerprints: next.diff is Some,
    }) && signal == Signal::Done(true)
    &&& manifest_written(c) ==> next.diff == c.diff
    &&& index_untouched(next) ==> index_untouched(c)
    &&& !at_gate(c) ==> !at_gate(next)
    &&& ask_of(c) == Ask::LoadManifest && signal == Signal::Manifest(ManifestFact::Absent) ==>
        refused(next) || built_anew(next)
    &&& c.full_reindex ==> next.full_reindex && next.selected_files == c.selected_files
        && next.total_files == c.total_files
}

spec fn manifest_written(c: RunControl) -> bool {
    c.phase == Phase::RowsOnly || c.phase == Phase::RecordOnly || c.phase == Phase::RecordAfter || (
    succeeded(c) && c.phase != Phase::Finished(Outcome::UpToDate))
}

spec fn index_untouched(c: RunControl) -> bool {
    undecided(c) || c.phase == Phase::RecordUpToDate || c.phase == Phase::Finished(
        Outcome::UpToDate,
    )
}

proof fn lemma_gate_step(c: RunControl, record: Option<IndexStatus>, changed: bool, signal: Signal)
    requires
        sound(c, record, changed),
        changes(ask_of(c)) ==> changed,
        ({
            match c.phase {
                Phase::LexicalGate | Phase::CollectionGate | Phase::RecordGate | Phase::BackendGate => true,
                _ => false,
            }
        }),
    ensures
        kept(c, record, changed, gate_step(c, signal)),
        telling(c, signal, gate_step(c, signal).0),
{
}

proof fn lemma_plan_step(c: RunControl, record: Option<IndexStatus>, changed: bool, signal: Signal)
    requires
        sound(c, record, changed),
        changes(ask_of(c)) ==> changed,
        ({
            match c.phase {
                Phase::Walk | Phase::Manifest | Phase::Diff | Phase::CollectionCheck | Phase::RowsUpToDate | Phase::RecordUpToDate => true,
                _ => false,
            }
        }),
    ensures
        kept(c, record, changed, plan_step(c, signal)),
        telling(c, signal, plan_step(c, signal).0),
{
}

proof fn lemma_prepare_step(c: RunControl, record: Option<IndexStatus>, changed: bool, signal: Signal)
    requires
        sound(c, record, changed),
        changes(ask_of(c)) ==> changed,
        ({
            match c.phase {
                Phase::FindOld | Phase::DropOld | Phase::FindCurrent | Phase::Create | Phase::PrepareLexical | Phase::DeleteVectors => true,
                _ => false,
            }
        }),
    ensures
        kept(c, record, changed, prepare_step(c, signal)),
        telling(c, signal, prepare_step(c, signal).0),
{
}

proof fn lemma_unread_step(c: RunControl, record: Option<IndexStatus>, changed: bool, signal: Signal)
    requires
        sound(c, record, changed),
        changes(ask_of(c)) ==> changed,
        ({
            match c.phase {
                Phase::ManifestOnly | Phase::RowsOnly | Phase::RecordOnly => true,
                _ => false,
            }
        }),
    ensures
        kept(c, record, changed, unread_step(c, signal)),
        telling(c, signal, unread_step(c, signal).0),
{
}

proof fn lemma_fill_step(c: RunControl, record: Option<IndexStatus>, changed: bool, signal: Signal)
    requires
        sound(c, record, changed),
        changes(ask_of(c)) ==> changed,
        ({
            match c.phase {
                Phase::Split | Phase::Populate | Phase::RowsAfter | Phase::ManifestAfter | Phase::RecordAfter => true,
                _ => false,
            }
        }),
    ensures
        kept(c, record, changed, fill_step(c, signal)),
        telling(c, signal, fill_step(c, signal).0),
{
}

proof fn lemma_step(c: RunControl, record: Option<IndexStatus>, changed: bool, signal: Signal)
    requires
        sound(c, record, changed),
        changes(ask_of(c)) ==> changed,
    ensures
        kept(c, record, changed, next(c, signal)),
        telling(c, signal, next(c, signal).0),
{
    reveal(next);
    match c.phase {
        Phase::LexicalGate | Phase::CollectionGate | Phase::RecordGate | Phase::BackendGate => {
            lemma_gate_step(c, record, changed, signal);
        },
        Phase::Walk | Phase::Manifest | Phase::Diff | Phase::CollectionCheck | Phase::RowsUpToDate | Phase::RecordUpToDate => {
            lemma_plan_step(c, record, changed, signal);
        },
        Phase::FindOld | Phase::DropOld | Phase::FindCurrent | Phase::Create | Phase::PrepareLexical | Phase::DeleteVectors => {
            lemma_prepare_step(c, record, changed, signal);
        },
        Phase::ManifestOnly | Phase::RowsOnly | Phase::RecordOnly => {
            lemma_unread_step(c, record, changed, signal);
        },
        Phase::Split | Phase::Populate | Phase::RowsAfter | Phase::ManifestAfter | Phase::RecordAfter => {
            lemma_fill_step(c, record, changed, signal);
        },
        Phase::Finished(_) => {},
    }
}

proof fn lemma_run_sound(
    mode: Mode,
    embeddings_enabled: bool,
    previous: Option<IndexStatus>,
    signals: Seq<Signal>,
)
    ensures
        ({
            let c = started(mode, embeddings_enabled, previous);
            let end = after(c, signals);
            &&& sound(end, record_after(c, first_record(), signals), asked_for_change(c, signals))
            &&& end.mode == mode
            &&& end.embeddings_enabled == embeddings_enabled
            &&& end.previous == previous
        }),
    decreases signals.len(),
{
    if signals.len() > 0 {
        let c = started(mode, embeddings_enabled, previous);
        let earlier = signals.drop_last();
        lemma_run_sound(mode, embeddings_enabled, previous, earlier);
        lemma_step(
            after(c, earlier),
            record_after(c, first_record(), earlier),
            asked_for_change(c, earlier),
            signals.last(),
        );
    }
}

/// What the last step of a run tells.
proof fn lemma_last_step(
    mode: Mode,
    embeddings_enabled: bool,
    previous: Option<IndexStatus>,
    signals: Seq<Signal>,
)
    requires
        signals.len() > 0,
    ensures
        ({
            let c = started(mode, embeddings_enabled, previous);
            let earlier = after(c, signals.drop_last());
            &&& telling(earlier, signals.last(), after(c, signals))
            &&& earlier.mode == mode
            &&& earlier.embeddings_enabled == embeddings_enabled
        }),
{
    let c = started(mode, embeddings_enabled, previous);
    let earlier = signals.drop_last();
    lemma_run_sound(mode, embeddings_enabled, previous, earlier);
    lemma_step(
        after(c, earlier),
        record_after(c, first_record(), earlier),
        asked_for_change(c, earlier),
        signals.last(),
    );
}

/// A run keeps its mode, whether it embeds, and the record it started from.
pub proof fn law_run_keeps_its_mode(
    mode: Mode,
    embeddings_enabled: bool,
    previous: Option<IndexStatus>,
    signals: Seq<Signal>,
)
    ensures
        ({
            let end = after(started(mode, embeddings_enabled, previous), signals);
            end.mode == mode && end.embeddings_enabled == embeddings_enabled && end.previous
                == previous
        }),
{
    lemma_run_sound(mode, embeddings_enabled, previous, signals);
}

/// A refused run changed nothing: it asked for no change, and the status record
/// on disk is what it was before the run.
pub proof fn law_refused_run_leaves_no_trace(
    mode: Mode,
    embeddings_enabled: bool,
    previous: Option<IndexStatus>,
    signals: Seq<Signal>,
)
    ensures
        ({
            let c = started(mode, embeddings_enabled, previous);
            refused(after(c, signals)) ==> !asked_for_change(c, signals) && record_after(
                c,
                first_record(),
                signals,
            ) == previous
        }),
{
    lemma_run_sound(mode, embeddings_enabled, previous, signals);
}

/// A run that failed without rebuilding keeps the evidence of what was stored
/// before: the recorded counts of embeddings and vectors do not go down.
pub proof fn law_failure_keeps_evidence(
    mode: Mode,
    embeddings_enabled: bool,
    previous: IndexStatus,
    signals: Seq<Signal>,
)
    ensures
        ({
            let c = started(mode, embeddings_enabled, Some(previous));
            let end = after(c, signals);
            let record = record_after(c, first_record(), signals);
            failed_late(end) && !end.full_reindex ==> record is Some && record->0.vectors_inserted
                >= previous.vectors_inserted && record->0.embeddings_generated
                >= previous.embeddings_generated
        }),
{
    lemma_run_sound(mode, embeddings_enabled, Some(previous), signals);
}

/// A run that ended shows a final status: `Completed` where it succeeded, over
/// all files, and `Failed` otherwise. What is on disk agrees, except that a
/// refused run leaves there what it found.
pub proof fn law_ended_run_has_a_final_status(
    mode: Mode,
    embeddings_enabled: bool,
    previous: Option<IndexStatus>,
    signals: Seq<Signal>,
)
    ensures
        ({
            let c = started(mode, embeddings_enabled, previous);
            let end = after(c, signals);
            let record = record_after(c, first_record(), signals);
            &&& succeeded(end) ==> end.status.status == IndexState::Completed
                && end.status.processed_files == end.status.total_files
                && end.status.total_files == end.total_files
            &&& failed_late(end) || refused(end) ==> end.status.status == IndexState::Failed
            &&& succeeded(end) || failed_late(end) ==> record == Some(end.status)
        }),
{
    lemma_run_sound(mode, embeddings_enabled, previous, signals);
}

/// An update never rebuilds: it drops no collection and clears no lexical index.
/// It is refused without a compatible manifest, where the manifest has no lexical
/// index beside it, and where the vector collection is missing.
pub proof fn law_update_never_rebuilds(
    embeddings_enabled: bool,
    previous: Option<IndexStatus>,
    signals: Seq<Signal>,
)
    ensures
        ({
            let c = started(Mode::Update, embeddings_enabled, previous);
            let end = after(c, signals);
            &&& !end.full_reindex
            &&& !asked(c, signals, Ask::DropCollection)
            &&& !asked(c, signals, Ask::PrepareLexical { clear: true })
            &&& answered(
                c,
                signals,
                Ask::LoadManifest,
                Signal::Manifest(ManifestFact::Absent),
            ) || answered(
                c,
                signals,
                Ask::LoadManifest,
                Signal::Manifest(ManifestFact::Incompatible),
            ) ==> refused(end)
            &&& end.phase == Phase::LexicalGate ==> refused(
                step(end, Signal::Looked { manifest: Some(true), lexical: Some(false) }).0,
            ) && refused(step(end, Signal::Looked { manifest: Some(true), lexical: None }).0)
            &&& end.phase == Phase::CollectionCheck ==> refused(
                step(end, Signal::Collection(Some(false))).0,
            )
        }),
    decreases signals.len(),
{
    let end = after(started(Mode::Update, embeddings_enabled, previous), signals);
    assert(end.phase == Phase::LexicalGate ==> refused(
        gate_step(end, Signal::Looked { manifest: Some(true), lexical: Some(false) }).0,
    ) && refused(gate_step(end, Signal::Looked { manifest: Some(true), lexical: None }).0));
    lemma_run_sound(Mode::Update, embeddings_enabled, previous, signals);
    assert(end.phase == Phase::CollectionCheck ==> refused(
        plan_step(end, Signal::Collection(Some(false))).0,
    ));
    if signals.len() > 0 {
        lemma_last_step(Mode::Update, embeddings_enabled, previous, signals);
        law_update_never_rebuilds(embeddings_enabled, previous, signals.drop_last());
    }
}

/// A lexical-only run never touches vectors, their collection or its provenance
/// record.
pub proof fn law_lexical_run_leaves_vectors_alone(
    mode: Mode,
    previous: Option<IndexStatus>,
    signals: Seq<Signal>,
)
    ensures
        ({
            let c = started(mode, false, previous);
            &&& !asked(c, signals, Ask::DropCollection)
            &&& !asked(c, signals, Ask::CreateCollection)
            &&& !asked(c, signals, Ask::DeleteStaleVectors)
            &&& !asked(c, signals, Ask::WriteBackendRecord)
            &&& !asked(c, signals, Ask::Populate { embed: true })
            &&& after(c, signals).vectors == 0
            &&& after(c, signals).embeddings == 0
        }),
    decreases signals.len(),
{
    lemma_run_sound(mode, false, previous, signals);
    if signals.len() > 0 {
        law_lexical_run_leaves_vectors_alone(mode, previous, signals.drop_last());
    }
}

/// A lexical-only run changes nothing and does not succeed where anything tells
/// of a semantic index: a collection, a recorded vector count, or a provenance
/// record, even one that cannot be read.
pub proof fn law_lexical_run_yields_to_semantic_index(
    mode: Mode,
    previous: Option<IndexStatus>,
    signals: Seq<Signal>,
)
    ensures
        ({
            let c = started(mode, false, previous);
            let told = before(c).vectors_inserted > 0 || answered(
                c,
                signals,
                Ask::HasCollection,
                Signal::Collection(Some(true)),
            ) || answered(
                c,
                signals,
                Ask::ReadBackendRecord,
                Signal::Record(RecordFact::Same),
            ) || answered(
                c,
                signals,
                Ask::ReadBackendRecord,
                Signal::Record(RecordFact::Differs),
            ) || answered(
                c,
                signals,
                Ask::ReadBackendRecord,
                Signal::Record(RecordFact::Unreadable),
            );
            told ==> !asked_for_change(c, signals) && !succeeded(after(c, signals))
        }),
{
    let c = started(mode, false, previous);
    lemma_run_sound(mode, false, previous, signals);
    lemma_lexical_gates(mode, previous, signals);
    if at_gate(after(c, signals)) || refused(after(c, signals)) {
        assert(!asked_for_change(c, signals));
    }
}

proof fn lemma_lexical_gates(mode: Mode, previous: Option<IndexStatus>, signals: Seq<Signal>)
    ensures
        ({
            let c = started(mode, false, previous);
            let end = after(c, signals);
            &&& answered(c, signals, Ask::HasCollection, Signal::Collection(Some(true))) ==> refused(
                end,
            ) || (end.phase == Phase::RecordGate && end.has_semantic)
            &&& answered(c, signals, Ask::ReadBackendRecord, Signal::Record(RecordFact::Same))
                || answered(
                c,
                signals,
                Ask::ReadBackendRecord,
                Signal::Record(RecordFact::Differs),
            ) || answered(
                c,
                signals,
                Ask::ReadBackendRecord,
                Signal::Record(RecordFact::Unreadable),
            ) ==> refused(end)
        }),
    decreases signals.len(),
{
    if signals.len() > 0 {
        lemma_last_step(mode, false, previous, signals);
        lemma_lexical_gates(mode, previous, signals.drop_last());
    }
}

/// A backend switch is refused, forced or not: once the provenance record names
/// another backend, the run is over, and it changed nothing.
pub proof fn law_backend_switch_is_refused(
    mode: Mode,
    embeddings_enabled: bool,
    previous: Option<IndexStatus>,
    signals: Seq<Signal>,
)
    requires
        answered(
            started(mode, embeddings_enabled, previous),
            signals,
            Ask::ReadBackendRecord,
            Signal::Record(RecordFact::Differs),
        ),
    ensures
        ({
            let c = started(mode, embeddings_enabled, previous);
            refused(after(c, signals)) && !asked_for_change(c, signals)
        }),
    decreases signals.len(),
{
    let c = started(mode, embeddings_enabled, previous);
    lemma_run_sound(mode, embeddings_enabled, previous, signals);
    let earlier = signals.drop_last();
    lemma_last_step(mode, embeddings_enabled, previous, signals);
    if answered(
        c,
        earlier,
        Ask::ReadBackendRecord,
        Signal::Record(RecordFact::Differs),
    ) {
        law_backend_switch_is_refused(mode, embeddings_enabled, previous, earlier);
    }
}

/// A run with embeddings asks for a change only after it read the provenance
/// record, and found none or one that names the backend in use.
pub proof fn law_changes_need_the_recorded_backend(
    mode: Mode,
    previous: Option<IndexStatus>,
    signals: Seq<Signal>,
)
    ensures
        ({
            let c = started(mode, true, previous);
            asked_for_change(c, signals) ==> answered(
                c,
                signals,
                Ask::ReadBackendRecord,
                Signal::Record(RecordFact::Absent),
            ) || answered(
                c,
                signals,
                Ask::ReadBackendRecord,
                Signal::Record(RecordFact::Same),
            )
        }),
{
    lemma_run_sound(mode, true, previous, signals);
    lemma_backend_gate(mode, previous, signals);
}

proof fn lemma_backend_gate(mode: Mode, previous: Option<IndexStatus>, signals: Seq<Signal>)
    ensures
        ({
            let c = started(mode, true, previous);
            let end = after(c, signals);
            at_gate(end) || refused(end) || answered(
                c,
                signals,
                Ask::ReadBackendRecord,
                Signal::Record(RecordFact::Absent),
            ) || answered(
                c,
                signals,
                Ask::ReadBackendRecord,
                Signal::Record(RecordFact::Same),
            )
        }),
    decreases signals.len(),
{
    if signals.len() > 0 {
        lemma_last_step(mode, true, previous, signals);
        lemma_backend_gate(mode, previous, signals.drop_last());
    }
}

/// A run with embeddings succeeds only after the provenance record was written,
/// and a run that read files or removed entries only after the manifest was.
pub proof fn law_success_is_recorded(
    mode: Mode,
    embeddings_enabled: bool,
    previous: Option<IndexStatus>,
    signals: Seq<Signal>,
)
    ensures
        ({
            let c = started(mode, embeddings_enabled, previous);
            let end = after(c, signals);
            &&& succeeded(end) && embeddings_enabled ==> answered(
                c,
                signals,
                Ask::WriteBackendRecord,
                Signal::Done(true),
            )
            &&& succeeded(end) && end.phase != Phase::Finished(Outcome::UpToDate) ==> answered(
                c,
                signals,
                Ask::WriteManifest { cached_fingerprints: end.diff is Some },
                Signal::Done(true),
            )
        }),
{
    lemma_written(mode, embeddings_enabled, previous, signals);
}

proof fn lemma_written(
    mode: Mode,
    embeddings_enabled: bool,
    previous: Option<IndexStatus>,
    signals: Seq<Signal>,
)
    ensures
        ({
            let c = started(mode, embeddings_enabled, previous);
            let end = after(c, signals);
            &&& succeeded(end) && embeddings_enabled ==> answered(
                c,
                signals,
                Ask::WriteBackendRecord,
                Signal::Done(true),
            )
            &&& end.phase == Phase::RowsOnly || end.phase == Phase::RecordOnly || end.phase
                == Phase::RecordAfter || (succeeded(end) && end.phase != Phase::Finished(
                Outcome::UpToDate,
            )) ==> answered(
                c,
                signals,
                Ask::WriteManifest { cached_fingerprints: end.diff is Some },
                Signal::Done(true),
            )
        }),
    decreases signals.len(),
{
    if signals.len() > 0 {
        lemma_last_step(mode, embeddings_enabled, previous, signals);
        lemma_written(mode, embeddings_enabled, previous, signals.drop_last());
    }
}

/// A run that found nothing changed leaves the index alone and keeps what it
/// reported before: its counts of chunks and embeddings, and, where it was
/// completed with vectors, the count of vectors.
pub proof fn law_up_to_date_run_keeps_counts(
    mode: Mode,
    embeddings_enabled: bool,
    previous: Option<IndexStatus>,
    signals: Seq<Signal>,
)
    ensures
        ({
            let c = started(mode, embeddings_enabled, previous);
            let end = after(c, signals);
            end.phase == Phase::Finished(Outcome::UpToDate) ==> {
                &&& !end.full_reindex
                &&& end.status.total_chunks == before(c).total_chunks
                &&& end.status.embeddings_generated == before(c).embeddings_generated
                &&& embeddings_enabled && before(c).status == IndexState::Completed && before(
                    c,
                ).vectors_inserted > 0 ==> end.status.vectors_inserted == before(c).vectors_inserted
                &&& !asked(c, signals, Ask::DropCollection)
                &&& !asked(c, signals, Ask::DeleteStaleVectors)
                &&& !asked(c, signals, Ask::PrepareLexical { clear: true })
                &&& !asked(c, signals, Ask::PrepareLexical { clear: false })
            }
        }),
{
    lemma_run_sound(mode, embeddings_enabled, previous, signals);
    lemma_untouched(mode, embeddings_enabled, previous, signals);
}

proof fn lemma_untouched(
    mode: Mode,
    embeddings_enabled: bool,
    previous: Option<IndexStatus>,
    signals: Seq<Signal>,
)
    ensures
        ({
            let c = started(mode, embeddings_enabled, previous);
            let end = after(c, signals);
            undecided(end) || end.phase == Phase::RecordUpToDate || end.phase == Phase::Finished(
                Outcome::UpToDate,
            ) ==> {
                &&& !asked(c, signals, Ask::DropCollection)
                &&& !asked(c, signals, Ask::DeleteStaleVectors)
                &&& !asked(c, signals, Ask::PrepareLexical { clear: true })
                &&& !asked(c, signals, Ask::PrepareLexical { clear: false })
            }
        }),
    decreases signals.len(),
{
    if signals.len() > 0 {
        lemma_last_step(mode, embeddings_enabled, previous, signals);
        lemma_untouched(mode, embeddings_enabled, previous, signals.drop_last());
    }
}

/// The run reads all files into an empty index.
pub open spec fn built_anew(c: RunControl) -> bool {
    c.full_reindex && c.selected_files == c.total_files
}

/// Where there is no manifest, an update is refused, and any other run that
/// succeeds reads every file that was found.
pub proof fn law_run_without_manifest_reads_every_file(
    mode: Mode,
    embeddings_enabled: bool,
    previous: Option<IndexStatus>,
    signals: Seq<Signal>,
)
    requires
        answered(
            started(mode, embeddings_enabled, previous),
            signals,
            Ask::LoadManifest,
            Signal::Manifest(ManifestFact::Absent),
        ),
    ensures
        ({
            let end = after(started(mode, embeddings_enabled, previous), signals);
            &&& mode == Mode::Update ==> refused(end)
            &&& succeeded(end) ==> built_anew(end) && end.phase != Phase::Finished(
                Outcome::UpToDate,
            )
        }),
{
    lemma_run_sound(mode, embeddings_enabled, previous, signals);
    lemma_without_manifest(mode, embeddings_enabled, previous, signals);
}

proof fn lemma_without_manifest(
    mode: Mode,
    embeddings_enabled: bool,
    previous: Option<IndexStatus>,
    signals: Seq<Signal>,
)
    requires
        answered(
            started(mode, embeddings_enabled, previous),
            signals,
            Ask::LoadManifest,
            Signal::Manifest(ManifestFact::Absent),
        ),
    ensures
        ({
            let end = after(started(mode, embeddings_enabled, previous), signals);
            refused(end) || built_anew(end)
        }),
    decreases signals.len(),
{
    let c = started(mode, embeddings_enabled, previous);
    let earlier = signals.drop_last();
    lemma_last_step(mode, embeddings_enabled, previous, signals);
    if answered(c, earlier, Ask::LoadManifest, Signal::Manifest(ManifestFact::Absent)) {
        lemma_without_manifest(mode, embeddings_enabled, previous, earlier);
    }
}

/// What a host reports of a codebase that has not changed since its index was
/// completed over `files` files with `vectors` vectors.
pub open spec fn unchanged(
    mode: Mode,
    embeddings_enabled: bool,
    files: usize,
    vectors: usize,
    diff: DiffFact,
    rows: Option<u64>,
) -> Seq<Signal> {
    let looked = if mode == Mode::Update {
        seq![Signal::Looked { manifest: Some(true), lexical: Some(true) }]
    } else {
        Seq::empty()
    };
    let gate = if embeddings_enabled {
        seq![Signal::Record(RecordFact::Same)]
    } else {
        seq![Signal::Collection(Some(false)), Signal::Record(RecordFact::Absent)]
    };
    let compared = seq![
        Signal::Walked(Some(files)),
        Signal::Manifest(ManifestFact::Compatible),
        Signal::Diff(Some(diff)),
    ];
    let kept = if !embeddings_enabled {
        Seq::empty()
    } else if vectors > 0 {
        seq![Signal::Collection(Some(true)), Signal::Done(true)]
    } else {
        seq![Signal::Collection(Some(true)), Signal::Rows(rows), Signal::Done(true)]
    };
    looked + gate + compared + kept
}

/// A run after a completed one, over a codebase that has not changed, finds it up
/// to date, and leaves the record of the completed run as it is.
pub proof fn law_second_run_is_up_to_date(
    first: Mode,
    second: Mode,
    embeddings_enabled: bool,
    previous: Option<IndexStatus>,
    signals: Seq<Signal>,
    diff: DiffFact,
    rows: Option<u64>,
)
    requires
        succeeded(after(started(first, embeddings_enabled, previous), signals)),
        second != Mode::Rebuild,
        diff.empty,
        rows is None || rows == Some(0u64),
    ensures
        ({
            let c = started(first, embeddings_enabled, previous);
            let record = record_after(c, first_record(), signals);
            let again = started(second, embeddings_enabled, record);
            let reports = unchanged(
                second,
                embeddings_enabled,
                record->0.total_files,
                record->0.vectors_inserted,
                diff,
                rows,
            );
            &&& record is Some
            &&& after(again, reports).phase == Phase::Finished(Outcome::UpToDate)
            &&& after(again, reports).vectors == record->0.vectors_inserted
            &&& record_after(again, first_record(), reports) == record
        }),
{
    let c = started(first, embeddings_enabled, previous);
    let record = record_after(c, first_record(), signals);
    lemma_run_sound(first, embeddings_enabled, previous, signals);
    let status = record->0;
    assert(!embeddings_enabled ==> status.vectors_inserted == 0);
    lemma_up_to_date(second, embeddings_enabled, status, diff, rows);
}

proof fn lemma_after_push(
    c: RunControl,
    record: Option<IndexStatus>,
    signals: Seq<Signal>,
    signal: Signal,
)
    ensures
        after(c, signals.push(signal)) == next(after(c, signals), signal).0,
        record_after(c, record, signals.push(signal)) == recorded(
            next(after(c, signals), signal).1,
            record_after(c, record, signals),
        ),
{
    assert(signals.push(signal).drop_last() =~= signals);
}

proof fn lemma_up_to_date(
    mode: Mode,
    embeddings_enabled: bool,
    status: IndexStatus,
    diff: DiffFact,
    rows: Option<u64>,
)
    requires
        mode != Mode::Rebuild,
        diff.empty,
        rows is None || rows == Some(0u64),
        status.status == IndexState::Completed,
        status.processed_files == status.total_files,
        !embeddings_enabled ==> status.vectors_inserted == 0,
    ensures
        ({
            let c = started(mode, embeddings_enabled, Some(status));
            let reports = unchanged(
                mode,
                embeddings_enabled,
                status.total_files,
                status.vectors_inserted,
                diff,
                rows,
            );
            &&& after(c, reports).phase == Phase::Finished(Outcome::UpToDate)
            &&& after(c, reports).vectors == status.vectors_inserted
            &&& record_after(c, first_record(), reports) == Some(status)
        }),
{
    let c = started(mode, embeddings_enabled, Some(status));
    let r = first_record();
    let files = status.total_files;
    let gate = lemma_passes_gates(mode, embeddings_enabled, status);
    let walked = gate.push(Signal::Walked(Some(files)));
    let found = RunControl { phase: Phase::Manifest, total_files: files, ..c };
    lemma_after_push(c, r, gate, Signal::Walked(Some(files)));
    lemma_plans(after(c, gate), Signal::Walked(Some(files)));
    assert(next(after(c, gate), Signal::Walked(Some(files))) == (found, Persist::Keep));
    let loaded = walked.push(Signal::Manifest(ManifestFact::Compatible));
    let comparing = RunControl { phase: Phase::Diff, ..found };
    lemma_after_push(c, r, walked, Signal::Manifest(ManifestFact::Compatible));
    lemma_plans(found, Signal::Manifest(ManifestFact::Compatible));
    assert(next(found, Signal::Manifest(ManifestFact::Compatible)) == (comparing, Persist::Keep));
    let compared = loaded.push(Signal::Diff(Some(diff)));
    lemma_after_push(c, r, loaded, Signal::Diff(Some(diff)));
    let reports = unchanged(
        mode,
        embeddings_enabled,
        files,
        status.vectors_inserted,
        diff,
        rows,
    );
    lemma_unchanged_steps(comparing, status, diff, rows);
    if !embeddings_enabled {
        assert(reports =~= compared);
    } else {
        let checking = checks_collection(comparing, diff);
        let kept = keeps_status(checking, status);
        let there = compared.push(Signal::Collection(Some(true)));
        lemma_after_push(c, r, compared, Signal::Collection(Some(true)));
        if status.vectors_inserted > 0 {
            lemma_after_push(c, r, there, Signal::Done(true));
            assert(reports =~= there.push(Signal::Done(true)));
        } else {
            let counted = there.push(Signal::Rows(rows));
            lemma_after_push(c, r, there, Signal::Rows(rows));
            lemma_after_push(c, r, counted, Signal::Done(true));
            assert(reports =~= counted.push(Signal::Done(true)));
        }
    }
}

spec fn checks_collection(c: RunControl, diff: DiffFact) -> RunControl {
    RunControl { phase: Phase::CollectionCheck, diff: Some(diff), ..c }
}

spec fn keeps_status(c: RunControl, status: IndexStatus) -> RunControl {
    RunControl {
        phase: Phase::RecordUpToDate,
        status,
        vectors: status.vectors_inserted,
        ..c
    }
}

/// The steps of a run that finds nothing changed, from the comparison on.
proof fn lemma_unchanged_steps(
    c: RunControl,
    status: IndexStatus,
    diff: DiffFact,
    rows: Option<u64>,
)
    requires
        c.phase == Phase::Diff,
        c.previous == Some(status),
        c.total_files == status.total_files,
        diff.empty,
        rows is None || rows == Some(0u64),
        status.status == IndexState::Completed,
        status.processed_files == status.total_files,
        !c.embeddings_enabled ==> status.vectors_inserted == 0,
    ensures
        ({
            let checking = checks_collection(c, diff);
            let counting = RunControl { phase: Phase::RowsUpToDate, ..checking };
            let kept = keeps_status(checking, status);
            let end = RunControl { phase: Phase::Finished(Outcome::UpToDate), ..kept };
            let there = Signal::Collection(Some(true));
            &&& !c.embeddings_enabled ==> next(c, Signal::Diff(Some(diff))) == (
                RunControl {
                    phase: Phase::Finished(Outcome::UpToDate),
                    status,
                    vectors: 0,
                    diff: Some(diff),
                    ..c
                },
                Persist::Write(status),
            )
            &&& c.embeddings_enabled ==> next(c, Signal::Diff(Some(diff))) == (
                checking,
                Persist::Keep,
            )
            &&& c.embeddings_enabled && status.vectors_inserted > 0 ==> next(checking, there) == (
                kept,
                Persist::Write(status),
            )
            &&& c.embeddings_enabled && status.vectors_inserted == 0 ==> next(checking, there) == (
                counting,
                Persist::Keep,
            )
            &&& c.embeddings_enabled && status.vectors_inserted == 0 ==> next(
                counting,
                Signal::Rows(rows),
            ) == (kept, Persist::Write(status))
            &&& next(kept, Signal::Done(true)) == (end, Persist::Keep)
        }),
{
    let checking = checks_collection(c, diff);
    let counting = RunControl { phase: Phase::RowsUpToDate, ..checking };
    let kept = keeps_status(checking, status);
    let there = Signal::Collection(Some(true));
    lemma_plans(c, Signal::Diff(Some(diff)));
    lemma_plans(checking, there);
    lemma_plans(counting, Signal::Rows(rows));
    lemma_plans(kept, Signal::Done(true));
}

/// While the run is being planned, what follows is the planning step.
proof fn lemma_plans(c: RunControl, signal: Signal)
    requires
        c.phase == Phase::Walk || c.phase == Phase::Manifest || c.phase == Phase::Diff || c.phase
            == Phase::CollectionCheck || c.phase == Phase::RowsUpToDate || c.phase
            == Phase::RecordUpToDate,
    ensures
        next(c, signal) == plan_step(c, signal),
{
    reveal(next);
}

/// The reports with which an unchanged codebase passes the gates.
proof fn lemma_passes_gates(mode: Mode, embeddings_enabled: bool, status: IndexStatus) -> (signals:
    Seq<Signal>)
    requires
        mode != Mode::Rebuild,
        !embeddings_enabled ==> status.vectors_inserted == 0,
    ensures
        ({
            let c = started(mode, embeddings_enabled, Some(status));
            &&& after(c, signals) == (RunControl { phase: Phase::Walk, ..c })
            &&& record_after(c, first_record(), signals) == first_record()
        }),
        signals == (if mode == Mode::Update {
            seq![Signal::Looked { manifest: Some(true), lexical: Some(true) }]
        } else {
            Seq::empty()
        }) + (if embeddings_enabled {
            seq![Signal::Record(RecordFact::Same)]
        } else {
            seq![Signal::Collection(Some(false)), Signal::Record(RecordFact::Absent)]
        }),
{
    let c = started(mode, embeddings_enabled, Some(status));
    let r = first_record();
    let none = Seq::<Signal>::empty();
    let look = Signal::Looked { manifest: Some(true), lexical: Some(true) };
    let at_semantic = RunControl { phase: semantic_gate(embeddings_enabled), ..c };
    let looked = if mode == Mode::Update {
        none.push(look)
    } else {
        none
    };
    if mode == Mode::Update {
        lemma_after_push(c, r, none, look);
        assert(next(c, look) == (at_semantic, Persist::Keep)) by {
            reveal(next);
        }
    }
    assert(after(c, looked) == at_semantic);
    let through = RunControl { phase: Phase::Walk, ..c };
    if embeddings_enabled {
        let same = Signal::Record(RecordFact::Same);
        lemma_after_push(c, r, looked, same);
        assert(next(at_semantic, same) == (through, Persist::Keep)) by {
            reveal(next);
        }
        looked.push(same)
    } else {
        let missing = Signal::Collection(Some(false));
        let absent = Signal::Record(RecordFact::Absent);
        let at_record = RunControl { phase: Phase::RecordGate, ..c };
        lemma_after_push(c, r, looked, missing);
        assert(next(at_semantic, missing) == (at_record, Persist::Keep)) by {
            reveal(next);
        }
        lemma_after_push(c, r, looked.push(missing), absent);
        assert(next(at_record, absent) == (through, Persist::Keep)) by {
            reveal(next);
        }
        looked.push(missing).push(absent)
    }
}

/// How many embeddings the host reported of the batches that it was asked to
/// store.
pub open spec fn stored_embeddings(c: RunControl, signals: Seq<Signal>) -> nat
    decreases signals.len(),
{
    if signals.len() == 0 {
        0
    } else {
        let earlier = signals.drop_last();
        stored_embeddings(c, earlier) + match signals.last() {
            Signal::BatchStored { embedded, .. } => if ask_of(after(c, earlier))
                == (Ask::Populate { embed: true }) {
                embedded as nat
            } else {
                0
            },
            _ => 0,
        }
    }
}

/// How many vectors.
pub open spec fn stored_vectors(c: RunControl, signals: Seq<Signal>) -> nat
    decreases signals.len(),
{
    if signals.len() == 0 {
        0
    } else {
        let earlier = signals.drop_last();
        stored_vectors(c, earlier) + match signals.last() {
            Signal::BatchStored { inserted, .. } => if ask_of(after(c, earlier)) == (
            Ask::Populate { embed: true }) {
                inserted as nat
            } else {
                0
            },
            _ => 0,
        }
    }
}

/// The counts of a run are the sums of what was reported of its batches, as long
/// as the sums fit.
pub proof fn law_counts_sum_up_the_batches(
    mode: Mode,
    embeddings_enabled: bool,
    previous: Option<IndexStatus>,
    signals: Seq<Signal>,
)
    requires
        stored_embeddings(started(mode, embeddings_enabled, previous), signals) <= usize::MAX,
        stored_vectors(started(mode, embeddings_enabled, previous), signals) <= usize::MAX,
    ensures
        ({
            let c = started(mode, embeddings_enabled, previous);
            let end = after(c, signals);
            &&& end.embeddings == stored_embeddings(c, signals)
            &&& end.phase == Phase::Populate || end.phase == Phase::Finished(Outcome::Indexed)
                ==> end.vectors == stored_vectors(c, signals)
        }),
{
    lemma_sums(mode, embeddings_enabled, previous, signals);
}

spec fn filling(phase: Phase) -> bool {
    match phase {
        Phase::Split | Phase::Populate | Phase::RowsAfter | Phase::ManifestAfter => true,
        Phase::RecordAfter | Phase::Finished(Outcome::Indexed) => true,
        _ => false,
    }
}

/// What a step adds to the counts.
spec fn adds_up(c: RunControl, signal: Signal, next: RunControl) -> bool {
    let stored = signal is BatchStored && ask_of(c) == (Ask::Populate { embed: true });
    &&& stored && c.embeddings + signal->embedded <= usize::MAX && c.vectors + signal->inserted
        <= usize::MAX ==> next.embeddings == c.embeddings + signal->embedded && next.vectors
        == c.vectors + signal->inserted && next.phase == c.phase
    &&& !stored ==> next.embeddings == c.embeddings
    &&& !stored && filling(next.phase) ==> next.vectors == c.vectors
    &&& filling(next.phase) ==> filling(c.phase) || c.phase == Phase::PrepareLexical || c.phase
        == Phase::DeleteVectors
    &&& early(next.phase) ==> early(c.phase) && next.vectors == c.vectors
    &&& c.phase is Finished ==> next == c
}

/// No batch can have been stored yet.
spec fn early(phase: Phase) -> bool {
    match phase {
        Phase::LexicalGate | Phase::CollectionGate | Phase::RecordGate | Phase::BackendGate => true,
        Phase::Walk | Phase::Manifest | Phase::Diff | Phase::CollectionCheck => true,
        Phase::RowsUpToDate | Phase::FindOld | Phase::DropOld | Phase::FindCurrent => true,
        Phase::Create | Phase::PrepareLexical | Phase::DeleteVectors => true,
        _ => false,
    }
}

proof fn lemma_adds_up(c: RunControl, signal: Signal)
    ensures
        adds_up(c, signal, next(c, signal).0),
{
    reveal(next);
    match c.phase {
        Phase::LexicalGate | Phase::CollectionGate | Phase::RecordGate | Phase::BackendGate => {
            assert(adds_up(c, signal, gate_step(c, signal).0));
        },
        Phase::Walk | Phase::Manifest | Phase::Diff | Phase::CollectionCheck | Phase::RowsUpToDate | Phase::RecordUpToDate => {
            assert(adds_up(c, signal, plan_step(c, signal).0));
        },
        Phase::FindOld | Phase::DropOld | Phase::FindCurrent | Phase::Create | Phase::PrepareLexical | Phase::DeleteVectors => {
            assert(adds_up(c, signal, prepare_step(c, signal).0));
        },
        Phase::ManifestOnly | Phase::RowsOnly | Phase::RecordOnly => {
            assert(adds_up(c, signal, unread_step(c, signal).0));
        },
        Phase::Split | Phase::Populate | Phase::RowsAfter | Phase::ManifestAfter | Phase::RecordAfter => {
            assert(adds_up(c, signal, fill_step(c, signal).0));
        },
        Phase::Finished(_) => {},
    }
}

proof fn lemma_sums(
    mode: Mode,
    embeddings_enabled: bool,
    previous: Option<IndexStatus>,
    signals: Seq<Signal>,
)
    requires
        stored_embeddings(started(mode, embeddings_enabled, previous), signals) <= usize::MAX,
        stored_vectors(started(mode, embeddings_enabled, previous), signals) <= usize::MAX,
    ensures
        ({
            let c = started(mode, embeddings_enabled, previous);
            let end = after(c, signals);
            &&& end.embeddings == stored_embeddings(c, signals)
            &&& filling(end.phase) || early(end.phase) ==> end.vectors == stored_vectors(c, signals)
        }),
    decreases signals.len(),
{
    let c = started(mode, embeddings_enabled, previous);
    if signals.len() > 0 {
        let earlier = signals.drop_last();
        lemma_sums(mode, embeddings_enabled, previous, earlier);
        lemma_adds_up(after(c, earlier), signals.last());
    }
}

/// A run with embeddings that split its files into chunks succeeds only if every
/// batch was stored and some vector was.
pub proof fn law_success_stored_vectors(
    mode: Mode,
    previous: Option<IndexStatus>,
    signals: Seq<Signal>,
)
    ensures
        ({
            let end = after(started(mode, true, previous), signals);
            end.phase == Phase::Finished(Outcome::Indexed) && end.chunks > 0 ==> end.embeddings > 0
                && end.vectors > 0 && !end.batch_failed
        }),
{
    lemma_run_sound(mode, true, previous, signals);
}

/// Every answer brings the end of the run nearer: a run ends after at most
/// eighteen of them.
pub proof fn law_every_answer_brings_the_end_nearer(c: RunControl, signal: Signal)
    requires
        settles_ask(ask_of(c), signal),
    ensures
        distance(step(c, signal).0.phase) < distance(c.phase) <= 18,
{
    match c.phase {
        Phase::LexicalGate | Phase::CollectionGate | Phase::RecordGate | Phase::BackendGate => {
            assert(distance(gate_step(c, signal).0.phase) < distance(c.phase));
        },
        Phase::Walk | Phase::Manifest | Phase::Diff | Phase::CollectionCheck | Phase::RowsUpToDate | Phase::RecordUpToDate => {
            assert(distance(plan_step(c, signal).0.phase) < distance(c.phase));
        },
        Phase::FindOld | Phase::DropOld | Phase::FindCurrent | Phase::Create | Phase::PrepareLexical | Phase::DeleteVectors => {
            assert(distance(prepare_step(c, signal).0.phase) < distance(c.phase));
        },
        Phase::ManifestOnly | Phase::RowsOnly | Phase::RecordOnly => {
            assert(distance(unread_step(c, signal).0.phase) < distance(c.phase));
        },
        Phase::Split | Phase::Populate | Phase::RowsAfter | Phase::ManifestAfter | Phase::RecordAfter => {
            assert(distance(fill_step(c, signal).0.phase) < distance(c.phase));
        },
        Phase::Finished(_) => {},
    }
}

/// What does not answer the question and is no report of progress changes
/// nothing.
pub proof fn law_stray_reports_change_nothing(c: RunControl, signal: Signal)
    requires
        !settles_ask(ask_of(c), signal),
        !(ask_of(c) == Ask::SplitFiles && signal is FileSplit),
        !(ask_of(c) is Populate && (signal is BatchStored || signal is BatchFailed)),
    ensures
        step(c, signal).0 == c,
        step(c, signal).1 == Persist::Keep,
{
}

} // verus!
