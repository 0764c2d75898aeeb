//! What a run with its data takes in, decides by and reports: how its reports, its
//! decisions and its result hang together.

use crate::engine::batch::{chunks_of, failures_of};
use crate::engine::control::{
    ask_of, fill_step, gate_step, plan_step, prepare_step, started, step, unread_step, Ask,
    Failure, ManifestFact, Mode, Outcome, Phase, RecordFact, Refusal, RunControl, Signal,
};
use crate::engine::history::{
    after, answered, failed_late, law_counts_sum_up_the_batches, law_run_keeps_its_mode, refused,
    stored_embeddings, stored_vectors, succeeded,
};
use crate::engine::indexer::{
    begins, begun, changed_files, count_warnings, error_text, failure_text,
    law_changed_files_are_those_reported, law_counts_are_those_of_the_data,
    law_run_decides_by_its_signals, refusal_text, report, run_after, run_step, select_changed,
    signal_of, signals_of, stale_paths, to_read, to_remove, BatchReport, ErrorView, Event,
    IndexError, IndexResult, IndexRun, IndexerState, ManifestDiff, ManifestState, ResultView,
    RunView,
};
use crate::engine::milestones::{
    law_comparison_comes_after_the_walk, law_incremental_run_compared,
    law_indexed_run_split_and_stored, law_run_without_usable_manifest_rebuilds,
};
use crate::engine::status::Persist;
use crate::path::{path_text, relative_or_whole, HostPath};
use crate::text::{decimal, joined, views};
use crate::types::{IndexState, IndexStatus};
use crate::vectordb::naming::{collection_name, Location};
use crate::vectordb::store::backend_name;
use vstd::prelude::*;

verus! {

/// A report tells of an error exactly where what was asked could not be done or found
/// out, and then with the text of the error.
pub proof fn law_error_is_told_as_such(run: RunView, event: Event)
    ensures
        error_text(event) is Some <==> match signal_of(run, event) {
            Signal::Collection(found) => found is None,
            Signal::Record(fact) => fact == RecordFact::Unreadable,
            Signal::Walked(found) => found is None,
            Signal::Manifest(fact) => fact == ManifestFact::Unreadable,
            Signal::Diff(found) => found is None,
            Signal::Done(ok) => !ok,
            Signal::Populated { lexical_stored } => !lexical_stored,
            _ => false,
        },
        event matches Event::Collection(Err(text)) ==> error_text(event) == Some(text@),
        event matches Event::BackendRecord(Err(text)) ==> error_text(event) == Some(text@),
        event matches Event::Walked(Err(text)) ==> error_text(event) == Some(text@),
        event matches Event::Manifest(Err(text)) ==> error_text(event) == Some(text@),
        event matches Event::Compared(Err(text)) ==> error_text(event) == Some(text@),
        event matches Event::Done(Err(text)) ==> error_text(event) == Some(text@),
        event matches Event::Populated(Err(text)) ==> error_text(event) == Some(text@),
{
}

/// A provenance record is taken for the run's own exactly where it names the backend in
/// use, letter for letter.
pub proof fn law_record_is_compared_by_name(run: RunView, name: String)
    ensures
        signal_of(run, Event::BackendRecord(Ok(Some(name)))) == Signal::Record(RecordFact::Same)
            <==> name@ == run.backend,
        signal_of(run, Event::BackendRecord(Ok(Some(name)))) == Signal::Record(RecordFact::Differs)
            <==> name@ != run.backend,
        signal_of(run, Event::BackendRecord(Ok(None))) == Signal::Record(RecordFact::Absent),
{
}

/// A manifest, a collection and a count of rows are taken as they are reported.
pub proof fn law_findings_are_taken_as_reported(
    run: RunView,
    has: bool,
    rows: Option<u64>,
    manifest: Option<bool>,
    lexical: Option<bool>,
)
    ensures
        signal_of(run, Event::Collection(Ok(has))) == Signal::Collection(Some(has)),
        signal_of(run, Event::Rows(rows)) == Signal::Rows(rows),
        signal_of(run, Event::Looked { manifest, lexical }) == (Signal::Looked {
            manifest,
            lexical,
        }),
        signal_of(run, Event::Manifest(Ok(ManifestState::Absent))) == Signal::Manifest(
            ManifestFact::Absent,
        ),
        signal_of(run, Event::Manifest(Ok(ManifestState::Incompatible))) == Signal::Manifest(
            ManifestFact::Incompatible,
        ),
        signal_of(run, Event::Manifest(Ok(ManifestState::Compatible))) == Signal::Manifest(
            ManifestFact::Compatible,
        ),
        signal_of(run, Event::Done(Ok(()))) == Signal::Done(true),
        signal_of(run, Event::Populated(Ok(()))) == (Signal::Populated { lexical_stored: true }),
{
}

/// A comparison is empty exactly where nothing was added, modified or deleted. It has
/// stale entries exactly where the run has entries to remove for it: the deleted files',
/// then the modified ones'. As many files are to be read as the run then holds, those of
/// the walk whose relative path was added or modified.
pub proof fn law_comparison_is_taken_whole(run: RunView, diff: ManifestDiff)
    requires
        ask_of(run.control) == Ask::DiffManifest,
        run.files.len() <= usize::MAX,
    ensures
        ({
            let event = Event::Compared(Ok(diff));
            let then = run_step(run, event);
            let added = views(diff.added@);
            let modified = views(diff.modified@);
            let deleted = views(diff.deleted@);
            &&& signal_of(run, event) matches Signal::Diff(Some(fact)) && {
                &&& fact.empty <==> added.len() == 0 && modified.len() == 0 && deleted.len() == 0
                &&& fact.changed_files == then.changed.len()
                &&& fact.stale <==> then.stale.len() > 0
            }
            &&& then.stale == deleted + modified
            &&& then.changed == changed_files(run.path, run.files, added + modified)
        }),
{
    lemma_changed_len(run.path, run.files, views(diff.added@) + views(diff.modified@));
}

proof fn lemma_changed_len(root: Seq<u8>, files: Seq<Seq<u8>>, changed: Seq<Seq<char>>)
    ensures
        changed_files(root, files, changed).len() <= files.len(),
    decreases files.len(),
{
    if files.len() > 0 {
        lemma_changed_len(root, files.drop_last(), changed);
    }
}

/// Changed files are selected in their order, and as often as they were found: those of
/// some files and then others are the one after the other, and a single file is selected
/// exactly where its path relative to the root is among the changed ones.
pub proof fn law_changed_files_are_in_order(
    root: Seq<u8>,
    first: Seq<Seq<u8>>,
    second: Seq<Seq<u8>>,
    file: Seq<u8>,
    changed: Seq<Seq<char>>,
)
    ensures
        changed_files(root, first + second, changed) == changed_files(root, first, changed)
            + changed_files(root, second, changed),
        changed.contains(path_text(relative_or_whole(file, root))) ==> changed_files(
            root,
            seq![file],
            changed,
        ) == seq![file],
        !changed.contains(path_text(relative_or_whole(file, root))) ==> changed_files(
            root,
            seq![file],
            changed,
        ).len() == 0,
    decreases second.len(),
{
    let one = seq![file];
    assert(one.drop_last() =~= Seq::empty());
    assert(changed_files(root, one.drop_last(), changed) =~= Seq::empty());
    assert(Seq::<Seq<u8>>::empty().push(file) =~= one);
    if second.len() == 0 {
        assert(first + second =~= first);
        assert(changed_files(root, first, changed) + changed_files(root, second, changed)
            =~= changed_files(root, first, changed));
    } else {
        assert((first + second).drop_last() =~= first + second.drop_last());
        assert((first + second).last() == second.last());
        law_changed_files_are_in_order(root, first, second.drop_last(), file, changed);
        assert(changed_files(root, first + second, changed) =~= changed_files(root, first, changed)
            + changed_files(root, second, changed));
    }
}

/// A run keeps its path, its collection and its backend; the files are those of the
/// walk; and the name that a provenance record gives is kept where it was asked for.
pub proof fn law_run_keeps_what_it_is_about(run: RunView, event: Event)
    ensures
        ({
            let then = run_step(run, event);
            let ask = ask_of(run.control);
            &&& then.path == run.path && then.collection == run.collection && then.backend
                == run.backend
            &&& then.files == match event {
                Event::Walked(Ok(files)) => if ask == Ask::WalkFiles {
                    views(files@)
                } else {
                    run.files
                },
                _ => run.files,
            }
            &&& then.recorded_backend == match event {
                Event::BackendRecord(Ok(Some(name))) => if ask == Ask::ReadBackendRecord {
                    name@
                } else {
                    run.recorded_backend
                },
                _ => run.recorded_backend,
            }
        }),
{
}

/// The chunks to store are those that the files were split into, counted to the last;
/// each file that could not be split leaves its warning.
pub proof fn law_split_files_give_chunks_and_warnings(
    run: RunView,
    results: Vec<Result<Vec<crate::types::CodeChunk>, String>>,
)
    requires
        ask_of(run.control) == Ask::SplitFiles,
        chunks_of(results@).len() <= usize::MAX,
    ensures
        ({
            let event = Event::Split(results);
            let then = run_step(run, event);
            &&& then.chunks == chunks_of(results@)
            &&& then.warnings == run.warnings + failures_of(results@)
            &&& then.batch_failures == run.batch_failures
            &&& signal_of(run, event) == Signal::Chunked(then.chunks.len() as usize)
        }),
{
}

/// A stored batch leaves its warnings, and a failed one what it failed with, behind what
/// is there. Neither touches the chunks.
pub proof fn law_batches_leave_warnings_and_failures(
    run: RunView,
    embedded: usize,
    inserted: usize,
    warnings: Vec<String>,
    text: String,
)
    requires
        ask_of(run.control) == (Ask::Populate { embed: true }),
    ensures
        ({
            let stored = Event::Batch(BatchReport::Stored { embedded, inserted, warnings });
            let failed = Event::Batch(BatchReport::Failed(text));
            let panicked = Event::Batch(BatchReport::Panicked(text));
            &&& signal_of(run, stored) == (Signal::BatchStored { embedded, inserted })
            &&& run_step(run, stored).warnings == run.warnings + views(warnings@)
            &&& run_step(run, stored).batch_failures == run.batch_failures
            &&& run_step(run, stored).chunks == run.chunks
            &&& signal_of(run, failed) == Signal::BatchFailed
            &&& run_step(run, failed).batch_failures == run.batch_failures.push(
                "Streaming batch failed: "@ + text@,
            )
            &&& run_step(run, failed).warnings == run.warnings
            &&& signal_of(run, panicked) == Signal::BatchFailed
            &&& run_step(run, panicked).batch_failures == run.batch_failures.push(
                "Streaming batch task panicked: "@ + text@,
            )
            &&& run_step(run, panicked).warnings == run.warnings
        }),
{
}

/// The counts after the batches are warned of where a rebuilt collection has another
/// number of rows than vectors were accepted, and where fewer vectors were accepted than
/// embeddings made, in that order. Otherwise there is no warning.
pub proof fn law_counts_are_warned_of(c: RunControl, rows: Option<u64>)
    ensures
        ({
            let unlike = c.full_reindex && rows is Some && rows->0 != c.vectors && (rows->0
                <= usize::MAX || c.vectors != usize::MAX);
            let fewer = c.vectors < c.embeddings;
            let told = count_warnings(c, rows);
            &&& told.len() == (if unlike {
                1int
            } else {
                0int
            }) + (if fewer {
                1int
            } else {
                0int
            })
            &&& unlike && rows->0 <= usize::MAX ==> told[0] == "Vector store stats report "@
                + decimal(rows->0 as nat) + " rows after "@ + decimal(c.vectors as nat)
                + " accepted inserts; preserving the insert response count"@
            &&& fewer ==> told.last() == "Vector store accepted "@ + decimal(c.vectors as nat)
                + " rows for "@ + decimal(c.embeddings as nat) + " generated embeddings"@
        }),
{
}

/// What the last report leaves as the cause of an ended run.
spec fn cause_fits(control: RunControl, cause: Option<Seq<char>>, then: RunControl) -> bool {
    !(control.phase is Finished) ==> match then.phase {
        Phase::Finished(Outcome::Refused(refusal)) => match refusal {
            Refusal::CollectionUnknown | Refusal::RecordUnreadable | Refusal::WalkFailed => cause is Some,
            Refusal::ManifestUnreadable | Refusal::DiffFailed => cause is Some,
            Refusal::CollectionLookupFailed => cause is Some,
            _ => cause is None,
        },
        Phase::Finished(Outcome::Failed(failure)) => match failure {
            Failure::BatchesFailed | Failure::NoEmbeddings | Failure::NoVectors => cause is None,
            _ => cause is Some,
        },
        Phase::Finished(_) => cause is None,
        _ => true,
    }
}

/// Whether a signal tells of an error.
spec fn tells_error(signal: Signal) -> bool {
    match signal {
        Signal::Collection(found) => found is None,
        Signal::Record(fact) => fact == RecordFact::Unreadable,
        Signal::Walked(found) => found is None,
        Signal::Manifest(fact) => fact == ManifestFact::Unreadable,
        Signal::Diff(found) => found is None,
        Signal::Done(ok) => !ok,
        Signal::Populated { lexical_stored } => !lexical_stored,
        _ => false,
    }
}

proof fn lemma_cause_fits(c: RunControl, signal: Signal, cause: Option<Seq<char>>)
    requires
        cause is Some <==> tells_error(signal),
    ensures
        cause_fits(c, cause, step(c, signal).0),
{
    match c.phase {
        Phase::LexicalGate | Phase::CollectionGate | Phase::RecordGate | Phase::BackendGate => {
            assert(cause_fits(c, cause, gate_step(c, signal).0));
        },
        Phase::Walk | Phase::Manifest | Phase::Diff | Phase::CollectionCheck | Phase::RowsUpToDate | Phase::RecordUpToDate => {
            assert(cause_fits(c, cause, plan_step(c, signal).0));
        },
        Phase::FindOld | Phase::DropOld | Phase::FindCurrent | Phase::Create | Phase::PrepareLexical | Phase::DeleteVectors => {
            assert(cause_fits(c, cause, prepare_step(c, signal).0));
        },
        Phase::ManifestOnly | Phase::RowsOnly | Phase::RecordOnly => {
            assert(cause_fits(c, cause, unread_step(c, signal).0));
        },
        Phase::Split | Phase::Populate | Phase::RowsAfter | Phase::ManifestAfter | Phase::RecordAfter => {
            assert(cause_fits(c, cause, fill_step(c, signal).0));
        },
        Phase::Finished(_) => {},
    }
}

/// A run that ends for an error has the text of that very error as its cause; one that
/// ends for what it found, or well, has none. What comes after the end changes neither.
pub proof fn law_cause_is_the_error_that_ended_the_run(run: RunView, event: Event)
    ensures
        ({
            let then = run_step(run, event);
            &&& run.control.phase is Finished ==> then.cause == run.cause && then.control.phase
                == run.control.phase
            &&& !(run.control.phase is Finished) && then.control.phase is Finished ==> then.cause
                == error_text(event)
            &&& !(run.control.phase is Finished) ==> match then.control.phase {
                Phase::Finished(Outcome::Refused(refusal)) => then.cause is Some <==> refusal
                    == Refusal::CollectionUnknown || refusal == Refusal::RecordUnreadable || refusal
                    == Refusal::WalkFailed || refusal == Refusal::ManifestUnreadable || refusal
                    == Refusal::DiffFailed || refusal == Refusal::CollectionLookupFailed,
                Phase::Finished(Outcome::Failed(failure)) => then.cause is None <==> failure
                    == Failure::BatchesFailed || failure == Failure::NoEmbeddings || failure
                    == Failure::NoVectors,
                Phase::Finished(_) => then.cause is None,
                _ => then.cause == run.cause,
            }
        }),
{
    law_error_is_told_as_such(run, event);
    lemma_cause_fits(run.control, signal_of(run, event), error_text(event));
}

/// What a report does to the data of a comparison.
proof fn lemma_comparison_step(run: RunView, event: Event)
    ensures
        ({
            let then = run_step(run, event);
            &&& ask_of(run.control) != Ask::DiffManifest ==> then.changed == run.changed
                && then.stale == run.stale
            &&& ask_of(run.control) != Ask::WalkFiles ==> then.files == run.files
            &&& run.control.diff is None && then.control.diff is Some ==> (
            event matches Event::Compared(Ok(diff)) && then.files == run.files && then.changed
                == changed_files(
                run.path,
                run.files,
                views(diff.added@) + views(diff.modified@),
            ) && then.stale == views(diff.deleted@) + views(diff.modified@))
        }),
{
    lemma_diff_comes_from_a_comparison(run.control, signal_of(run, event));
}

/// The comparison that the data of a run come from.
spec fn compared_by(end: RunView, event: Event) -> bool {
    event matches Event::Compared(Ok(diff)) && end.changed == changed_files(
        end.path,
        end.files,
        views(diff.added@) + views(diff.modified@),
    ) && end.stale == views(diff.deleted@) + views(diff.modified@)
}

spec fn walked_by(end: RunView, event: Event) -> bool {
    event matches Event::Walked(Ok(files)) && views(files@) == end.files
}

proof fn lemma_walked(run: RunView, events: Seq<Event>)
    requires
        run.files.len() == 0,
    ensures
        ({
            let end = run_after(run, events);
            &&& end.files.len() > 0 ==> exists|i: int|
                0 <= i < events.len() && walked_by(end, #[trigger] events[i])
            &&& end.path == run.path && end.collection == run.collection && end.backend
                == run.backend
        }),
    decreases events.len(),
{
    if events.len() > 0 {
        let earlier = events.drop_last();
        let before = run_after(run, earlier);
        let end = run_after(run, events);
        lemma_walked(run, earlier);
        law_run_keeps_what_it_is_about(before, events.last());
        if end.files == before.files && before.files.len() > 0 {
            let i = choose|i: int| 0 <= i < earlier.len() && walked_by(before, #[trigger] earlier[i]);
            assert(walked_by(end, events[i]));
        } else if end.files.len() > 0 {
            assert(walked_by(end, events[events.len() - 1]));
        }
    }
}

proof fn lemma_compared_by(
    mode: Mode,
    state: IndexerState,
    location: Location,
    previous: Option<IndexStatus>,
    events: Seq<Event>,
)
    ensures
        ({
            let end = run_after(begun(mode, state, location, previous), events);
            end.control.diff is Some ==> exists|i: int|
                0 <= i < events.len() && compared_by(end, #[trigger] events[i])
        }),
    decreases events.len(),
{
    let run = begun(mode, state, location, previous);
    if events.len() > 0 {
        let earlier = events.drop_last();
        let event = events.last();
        let before = run_after(run, earlier);
        let end = run_after(run, events);
        lemma_compared_by(mode, state, location, previous, earlier);
        lemma_walked(run, earlier);
        lemma_walked(run, events);
        law_run_decides_by_its_signals(run, earlier);
        law_comparison_comes_after_the_walk(
            mode,
            state.embeddings_enabled,
            previous,
            signals_of(run, earlier),
        );
        lemma_comparison_step(before, event);
        if before.control.diff is Some {
            let i = choose|i: int|
                0 <= i < earlier.len() && compared_by(before, #[trigger] earlier[i]);
            assert(events[i] == earlier[i]);
            assert(compared_by(end, events[i]));
        } else if end.control.diff is Some {
            assert(compared_by(end, events[events.len() - 1]));
        }
    }
}

/// Every file that a run lists was found by its walk, and where the run reads what
/// changed, it goes by a comparison that it was given.
pub proof fn law_run_data_come_from_its_reports(
    mode: Mode,
    state: IndexerState,
    location: Location,
    previous: Option<IndexStatus>,
    events: Seq<Event>,
)
    ensures
        ({
            let end = run_after(begun(mode, state, location, previous), events);
            &&& end.files.len() > 0 ==> exists|i: int|
                0 <= i < events.len() && (#[trigger] events[i] matches Event::Walked(Ok(files))
                    && views(files@) == end.files)
            &&& end.control.diff is Some ==> exists|i: int|
                0 <= i < events.len() && (#[trigger] events[i] matches Event::Compared(Ok(diff))
                    && end.changed == changed_files(
                    end.path,
                    end.files,
                    views(diff.added@) + views(diff.modified@),
                ) && end.stale == views(diff.deleted@) + views(diff.modified@))
            &&& end.path == location.path@
            &&& end.collection == collection_name(location.path@, location.identity())
            &&& end.backend == backend_name(state.vector_store.server())
        }),
{
    let run = begun(mode, state, location, previous);
    let end = run_after(run, events);
    lemma_walked(run, events);
    lemma_compared_by(mode, state, location, previous, events);
    if end.files.len() > 0 {
        let i = choose|i: int| 0 <= i < events.len() && walked_by(end, #[trigger] events[i]);
        assert(events[i] is Walked);
    }
    if end.control.diff is Some {
        let i = choose|i: int| 0 <= i < events.len() && compared_by(end, #[trigger] events[i]);
        assert(events[i] is Compared);
    }
}

spec fn compares(c: RunControl, signal: Signal, then: RunControl) -> bool {
    c.diff is None && then.diff is Some ==> c.phase == Phase::Diff && signal is Diff
        && signal->Diff_0 is Some
}

proof fn lemma_diff_comes_from_a_comparison(c: RunControl, signal: Signal)
    ensures
        compares(c, signal, step(c, signal).0),
{
    match c.phase {
        Phase::LexicalGate | Phase::CollectionGate | Phase::RecordGate | Phase::BackendGate => {
            assert(compares(c, signal, gate_step(c, signal).0));
        },
        Phase::Walk | Phase::Manifest | Phase::Diff | Phase::CollectionCheck | Phase::RowsUpToDate | Phase::RecordUpToDate => {
            assert(compares(c, signal, plan_step(c, signal).0));
        },
        Phase::FindOld | Phase::DropOld | Phase::FindCurrent | Phase::Create | Phase::PrepareLexical | Phase::DeleteVectors => {
            assert(compares(c, signal, prepare_step(c, signal).0));
        },
        Phase::ManifestOnly | Phase::RowsOnly | Phase::RecordOnly => {
            assert(compares(c, signal, unread_step(c, signal).0));
        },
        Phase::Split | Phase::Populate | Phase::RowsAfter | Phase::ManifestAfter | Phase::RecordAfter => {
            assert(compares(c, signal, fill_step(c, signal).0));
        },
        Phase::Finished(_) => {},
    }
}

/// A run that is no update, and that found no manifest, found one made with other
/// settings, or was told to rebuild, reads every file of the walk and removes no single
/// entries, where it succeeds.
pub proof fn law_run_without_usable_manifest_reads_what_was_walked(
    mode: Mode,
    state: IndexerState,
    location: Location,
    previous: Option<IndexStatus>,
    events: Seq<Event>,
)
    requires
        mode != Mode::Update,
        ({
            let c = started(mode, state.embeddings_enabled, previous);
            let signals = signals_of(begun(mode, state, location, previous), events);
            ||| mode == Mode::Rebuild
            ||| answered(c, signals, Ask::LoadManifest, Signal::Manifest(ManifestFact::Absent))
            ||| answered(
                c,
                signals,
                Ask::LoadManifest,
                Signal::Manifest(ManifestFact::Incompatible),
            )
        }),
        succeeded(run_after(begun(mode, state, location, previous), events).control),
    ensures
        ({
            let end = run_after(begun(mode, state, location, previous), events);
            &&& to_read(end) == end.files
            &&& to_remove(end).len() == 0
            &&& end.files.len() > 0 ==> exists|i: int|
                0 <= i < events.len() && (#[trigger] events[i] matches Event::Walked(Ok(files))
                    && views(files@) == to_read(end))
        }),
{
    let run = begun(mode, state, location, previous);
    law_run_decides_by_its_signals(run, events);
    law_run_without_usable_manifest_rebuilds(
        mode,
        state.embeddings_enabled,
        previous,
        signals_of(run, events),
    );
    law_run_data_come_from_its_reports(mode, state, location, previous, events);
}

/// An incremental run that succeeds read exactly the files of the walk that a comparison
/// found added or modified, and removed the entries of the deleted and modified ones.
pub proof fn law_incremental_run_reads_what_changed(
    mode: Mode,
    state: IndexerState,
    location: Location,
    previous: Option<IndexStatus>,
    events: Seq<Event>,
)
    requires
        ({
            let end = run_after(begun(mode, state, location, previous), events);
            succeeded(end.control) && !end.control.full_reindex
        }),
    ensures
        ({
            let end = run_after(begun(mode, state, location, previous), events);
            exists|i: int|
                0 <= i < events.len() && (#[trigger] events[i] matches Event::Compared(Ok(diff))
                    && to_read(end) == changed_files(
                    location.path@,
                    end.files,
                    views(diff.added@) + views(diff.modified@),
                ) && to_remove(end) == views(diff.deleted@) + views(diff.modified@))
        }),
{
    let run = begun(mode, state, location, previous);
    law_run_decides_by_its_signals(run, events);
    law_incremental_run_compared(
        mode,
        state.embeddings_enabled,
        previous,
        signals_of(run, events),
    );
    law_run_data_come_from_its_reports(mode, state, location, previous, events);
}

/// A run that read files reports how many it read, into how many chunks they were split,
/// how many embeddings and vectors its batches came to, and the warnings it gathered.
pub proof fn law_indexed_run_is_reported(
    mode: Mode,
    state: IndexerState,
    location: Location,
    previous: Option<IndexStatus>,
    events: Seq<Event>,
    duration_ms: u64,
)
    requires
        forall|i: int|
            0 <= i < events.len() ==> (#[trigger] events[i] matches Event::Walked(Ok(files))
                ==> files@.len() <= usize::MAX),
        ({
            let run = begun(mode, state, location, previous);
            let signals = signals_of(run, events);
            &&& run_after(run, events).control.phase == Phase::Finished(Outcome::Indexed)
            &&& stored_embeddings(run.control, signals) <= usize::MAX
            &&& stored_vectors(run.control, signals) <= usize::MAX
        }),
    ensures
        ({
            let run = begun(mode, state, location, previous);
            let signals = signals_of(run, events);
            let end = run_after(run, events);
            report(end, duration_ms) matches Some(Ok(result)) && {
                &&& result.files_processed == to_read(end).len()
                &&& result.files_processed > 0
                &&& answered(
                    run.control,
                    signals,
                    Ask::SplitFiles,
                    Signal::Chunked(result.chunks_created),
                )
                &&& result.embeddings_generated == stored_embeddings(run.control, signals)
                &&& result.vectors_inserted == stored_vectors(run.control, signals)
                &&& result.duration_ms == duration_ms
                &&& result.warnings == end.warnings
                &&& result.lexical_only <==> !state.embeddings_enabled
            }
        }),
{
    let run = begun(mode, state, location, previous);
    let signals = signals_of(run, events);
    law_run_decides_by_its_signals(run, events);
    law_counts_are_those_of_the_data(mode, state, location, previous, events);
    law_counts_sum_up_the_batches(mode, state.embeddings_enabled, previous, signals);
    law_indexed_run_split_and_stored(mode, state.embeddings_enabled, previous, signals);
    law_run_keeps_its_mode(mode, state.embeddings_enabled, previous, signals);
}

/// A run reports nothing while it is under way, an error with its cause where it was
/// refused or failed, and a result where it succeeded. One that read nothing reports no
/// file, chunk or embedding; one that was up to date says so, and tells the vectors that
/// its status shows.
pub proof fn law_run_is_reported_as_it_ended(
    mode: Mode,
    state: IndexerState,
    location: Location,
    previous: Option<IndexStatus>,
    events: Seq<Event>,
    duration_ms: u64,
)
    ensures
        ({
            let end = run_after(begun(mode, state, location, previous), events);
            let told = report(end, duration_ms);
            &&& told is None <==> !(end.control.phase is Finished)
            &&& refused(end.control) || failed_late(end.control) ==> told is Some && told->0 is Err
                && told->0->Err_0.cause == end.cause
            &&& succeeded(end.control) ==> told is Some && told->0 is Ok && told->0->Ok_0.duration_ms
                == duration_ms && (told->0->Ok_0.lexical_only <==> !state.embeddings_enabled)
            &&& succeeded(end.control) && end.control.phase != Phase::Finished(Outcome::Indexed)
                ==> told->0->Ok_0.files_processed == 0 && told->0->Ok_0.chunks_created == 0
                && told->0->Ok_0.embeddings_generated == 0
            &&& end.control.phase == Phase::Finished(Outcome::NothingToRead)
                ==> told->0->Ok_0.vectors_inserted == 0 && told->0->Ok_0.warnings == end.warnings
            &&& end.control.phase == Phase::Finished(Outcome::UpToDate)
                ==> told->0->Ok_0.warnings == seq!["already up to date"@]
                && told->0->Ok_0.vectors_inserted == end.control.vectors
        }),
{
    let run = begun(mode, state, location, previous);
    law_run_decides_by_its_signals(run, events);
    law_run_keeps_its_mode(mode, state.embeddings_enabled, previous, signals_of(run, events));
}

/// Every refusal says what is wrong, and names what it is about.
pub proof fn law_refusal_says_what_is_wrong(run: RunView)
    ensures
        refusal_text(run, Refusal::LexicalIndexMissing)
            == "Incremental update requires an existing lexical index for "@ + path_text(run.path)
            + "; run index --force to rebuild"@,
        refusal_text(run, Refusal::CollectionUnknown)
            == "Failed to check for an existing vector collection"@,
        refusal_text(run, Refusal::RecordUnreadable)
            == "Failed to read backend provenance record"@,
        refusal_text(run, Refusal::SemanticIndexExists) == "A semantic index exists for "@
            + path_text(run.path) + " (collection "@ + run.collection
            + ", a recorded vector count, or a backend provenance record) but embeddings are disabled; set EMBEDDING_URL (and MILVUS_URL if the vectors live in Milvus) to keep it current, or clear the index before lexical-only indexing"@,
        refusal_text(run, Refusal::BackendDiffers)
            == "The recorded index was built against vector backend '"@ + run.recorded_backend
            + "' but the current backend is '"@ + run.backend
            + "'; configure the recorded backend and run clear to retire its collection before re-indexing here"@,
        refusal_text(run, Refusal::WalkFailed) == "Failed to walk codebase"@,
        refusal_text(run, Refusal::ManifestUnreadable) == "Failed to load index manifest"@,
        refusal_text(run, Refusal::ManifestMissing)
            == "Incremental update requires an existing index manifest; run index_codebase first only when a full build is intended"@,
        refusal_text(run, Refusal::ManifestIncompatible)
            == "Incremental update requires a compatible index manifest; run index_codebase only when a full rebuild is intended"@,
        refusal_text(run, Refusal::DiffFailed) == "Failed to diff index manifest"@,
        refusal_text(run, Refusal::CollectionLookupFailed)
            == "Failed to check vector collection existence"@,
        refusal_text(run, Refusal::CollectionMissing)
            == "Incremental update requires existing vector collection "@ + run.collection
            + "; run index_codebase only when a full rebuild is intended"@,
{
}

/// Every failure says what failed, and how far the run had come.
pub proof fn law_failure_says_what_failed(run: RunView)
    ensures
        failure_text(run, Failure::PrepareVectors) == "Failed to prepare vector collection"@,
        failure_text(run, Failure::PrepareLexical) == "Failed to prepare lexical index"@,
        failure_text(run, Failure::DeleteVectors) == "Failed to delete stale vectors"@,
        failure_text(run, Failure::WriteManifest) == "Failed to write index manifest"@,
        failure_text(run, Failure::RecordBackend)
            == "Failed to record vector backend provenance"@,
        failure_text(run, Failure::UpdateLexical) == "Failed to update lexical index"@,
        failure_text(run, Failure::NoEmbeddings) == "Failed to generate any embeddings"@,
        failure_text(run, Failure::BatchesFailed) == "Streaming index failed after inserting "@
            + decimal(run.control.vectors as nat) + " vectors: "@ + joined(
            run.batch_failures,
            "; "@,
        ),
        run.warnings.len() == 0 ==> failure_text(run, Failure::NoVectors) == "Generated "@
            + decimal(run.control.chunks as nat) + " chunks and "@ + decimal(
            run.control.embeddings as nat,
        ) + " embeddings, but inserted 0 vectors"@,
        run.warnings.len() > 0 ==> failure_text(run, Failure::NoVectors) == "Generated "@ + decimal(
            run.control.chunks as nat,
        ) + " chunks and "@ + decimal(run.control.embeddings as nat)
            + " embeddings, but inserted 0 vectors"@ + (" ("@ + joined(run.warnings, "; "@)
            + ")"@),
{
    if run.warnings.len() == 0 {
        let text = "Generated "@ + decimal(run.control.chunks as nat) + " chunks and "@ + decimal(
            run.control.embeddings as nat,
        ) + " embeddings, but inserted 0 vectors"@;
        assert(text + Seq::<char>::empty() =~= text);
    }
}

/// A run begins unless one is under way that it may not take over; then it has read and
/// gathered nothing, and is shown and recorded as under way.
pub proof fn law_run_begins_empty(
    before: IndexerState,
    after: IndexerState,
    location: Location,
    mode: Mode,
    previous: Option<IndexStatus>,
    r: Result<(IndexRun, Persist), IndexError>,
)
    requires
        begins(before, after, location, mode, previous, r),
    ensures
        r is Err <==> before.indexing_status.status == IndexState::Indexing && mode
            != Mode::Rebuild,
        r is Err ==> after == before,
        after.embeddings_enabled == before.embeddings_enabled,
        after.vector_store == before.vector_store,
        after.embedding_dimension == before.embedding_dimension,
        after.concurrency == before.concurrency,
        r is Ok ==> {
            let run = r->Ok_0.0@;
            &&& after.indexing_status.status == IndexState::Indexing
            &&& after.indexing_status.vectors_inserted == 0
            &&& r->Ok_0.1 == Persist::Write(after.indexing_status)
            &&& run.control.mode == mode
            &&& run.control.embeddings_enabled == before.embeddings_enabled
            &&& run.control.previous == previous
            &&& run.control.status == after.indexing_status
            &&& run.path == location.path@
            &&& run.collection == collection_name(location.path@, location.identity())
            &&& run.backend == backend_name(before.vector_store.server())
            &&& run.files.len() == 0 && run.changed.len() == 0 && run.stale.len() == 0
            &&& run.chunks.len() == 0 && run.warnings.len() == 0 && run.batch_failures.len() == 0
            &&& run.cause is None
        },
{
}

/// What is selected of the files by a comparison: exactly those whose path relative to the
/// root was added or modified. What is stale is what was deleted, and then what was
/// modified.
pub proof fn law_selection_goes_by_the_comparison(
    root: &HostPath,
    files: &[HostPath],
    diff: &ManifestDiff,
    selected: Vec<HostPath>,
    stale: Vec<String>,
    file: Seq<u8>,
)
    requires
        call_ensures(select_changed, (root, files, diff), selected),
        call_ensures(stale_paths, (diff,), stale),
    ensures
        views(selected@).contains(file) <==> views(files@).contains(file) && (views(
            diff.added@,
        ).contains(path_text(relative_or_whole(file, root@))) || views(diff.modified@).contains(
            path_text(relative_or_whole(file, root@)),
        )),
        stale@.len() == diff.deleted@.len() + diff.modified@.len(),
        forall|i: int|
            0 <= i < diff.deleted@.len() ==> (#[trigger] stale@[i])@ == diff.deleted@[i]@,
        forall|i: int|
            0 <= i < diff.modified@.len() ==> stale@[diff.deleted@.len() + i]@ == (
            #[trigger] diff.modified@[i])@,
{
    let relative = path_text(relative_or_whole(file, root@));
    let added = views(diff.added@);
    let modified = views(diff.modified@);
    law_changed_files_are_those_reported(root@, views(files@), added + modified, file);
    if added.contains(relative) {
        let i = added.index_of(relative);
        assert((added + modified)[i] == relative);
    }
    if modified.contains(relative) {
        let i = modified.index_of(relative);
        assert((added + modified)[added.len() + i] == relative);
    }
    let all = views(stale@);
    assert(all.len() == stale@.len());
    assert forall|i: int| 0 <= i < diff.deleted@.len() implies (#[trigger] stale@[i])@
        == diff.deleted@[i]@ by {
        assert(all[i] == views(diff.deleted@)[i]);
    }
    assert forall|i: int| 0 <= i < diff.modified@.len() implies stale@[diff.deleted@.len() + i]@
        == (#[trigger] diff.modified@[i])@ by {
        assert(all[diff.deleted@.len() + i] == modified[i]);
    }
}

/// What ending a run gives: nothing before its end, an error where it was refused or
/// failed, and otherwise its counts.
pub proof fn law_finish_tells_how_the_run_ended(
    run: IndexRun,
    duration_ms: u64,
    r: Option<Result<IndexResult, IndexError>>,
)
    requires
        call_ensures(IndexRun::finish, (run, duration_ms), r),
    ensures
        r is None <==> !(run@.control.phase is Finished),
        r is Some ==> (r->0 is Err <==> refused(run@.control) || failed_late(run@.control)),
        run@.control.phase == Phase::Finished(Outcome::Indexed) ==> r->0->Ok_0.files_processed
            == run@.control.selected_files && r->0->Ok_0.chunks_created == run@.control.chunks
            && r->0->Ok_0.embeddings_generated == run@.control.embeddings
            && r->0->Ok_0.vectors_inserted == run@.control.vectors && r->0->Ok_0.duration_ms
            == duration_ms,
{
    let told = report(run@, duration_ms);
    if r is Some {
        match r->0 {
            Ok(result) => {
                assert(told == Some(Ok::<ResultView, ErrorView>(result@)));
            },
            Err(error) => {
                assert(told == Some(Err::<ResultView, ErrorView>(error@)));
            },
        }
    }
}

/// A run starts unless one is under way that it may not take over: only a rebuild may.
pub proof fn law_only_a_rebuild_takes_over(
    mode: Mode,
    embeddings_enabled: bool,
    current: IndexStatus,
    previous: Option<IndexStatus>,
    r: Option<(RunControl, Persist)>,
)
    requires
        call_ensures(RunControl::start, (mode, embeddings_enabled, current, previous), r),
    ensures
        r is None <==> current.status == IndexState::Indexing && mode != Mode::Rebuild,
        r matches Some((control, persist)) ==> persist == Persist::Write(control.status)
            && control.status.status == IndexState::Indexing && control.previous == previous
            && control.mode == mode && control.embeddings_enabled == embeddings_enabled,
{
}

/// Warnings, failures of batches and chunks are never lost by a report: what was gathered
/// stays in front. Warnings are added only where files were split, a batch was stored, or
/// the rows were counted after the batches; then those of the counts come last.
pub proof fn law_nothing_gathered_is_lost(run: RunView, event: Event)
    ensures
        ({
            let then = run_step(run, event);
            &&& run.warnings.is_prefix_of(then.warnings)
            &&& run.batch_failures.is_prefix_of(then.batch_failures)
            &&& !(event is Split) ==> then.chunks == run.chunks
            &&& !(event is Split) && !(event is Batch) && !(event is Rows) ==> then.warnings
                == run.warnings
            &&& !(event is Batch) ==> then.batch_failures == run.batch_failures
            &&& event matches Event::Rows(rows) ==> then.warnings == (if run.control.phase
                == Phase::RowsAfter {
                run.warnings + count_warnings(run.control, rows)
            } else {
                run.warnings
            })
        }),
{
}

/// A report can be counted exactly where it is no stored batch, or the sums of embeddings
/// and vectors stay in range.
pub proof fn law_batch_can_be_counted_where_the_sums_fit(
    run: &IndexRun,
    event: &Event,
    r: bool,
)
    requires
        call_ensures(IndexRun::can_count, (run, event), r),
    ensures
        *event matches Event::Batch(BatchReport::Stored { embedded, inserted, .. }) ==> (r
            <==> run@.control.embeddings + embedded <= usize::MAX && run@.control.vectors + inserted
            <= usize::MAX),
        !(*event is Batch) ==> r,
        *event matches Event::Batch(BatchReport::Failed(_)) ==> r,
        *event matches Event::Batch(BatchReport::Panicked(_)) ==> r,
{
}

} // verus!
