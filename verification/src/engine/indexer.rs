//! An indexing run with its data: the files it reads, the chunks and warnings it
//! gathers, and what it reports in the end.

use crate::engine::batch::{
    chunks_of, failures_of, merge_split_results, pieces, EMBEDDING_BATCH_SIZE,
};
use crate::engine::control::{
    ask_of, countable, embeds, fill_step, gate_step, plan_step, prepare_step, started, step,
    unread_step, Ask, DiffFact, Failure, ManifestFact, Mode, Outcome, Phase, RecordFact, Refusal,
    RunControl, Signal,
};
use crate::engine::embedding::{embeddings_of, law_embeddings_do_not_outnumber_chunks, Answer};
use crate::engine::history::{
    after, answered, first_record, law_counts_sum_up_the_batches, law_run_keeps_its_mode,
    law_run_without_manifest_reads_every_file, law_second_run_is_up_to_date, next, record_after,
    refused, stored_embeddings, stored_vectors, succeeded, unchanged,
};
use crate::engine::status::{capped, checked_vector_row_count, Persist};
use crate::path::{path_text, relative_or_whole, HostPath};
use crate::text::{contains_text, decimal, join_texts, joined, push_decimal, same_text, view_opt, views};
use crate::types::{nothing_counted, CodeChunk, IndexState, IndexStatus};
use crate::vectordb::naming::{collection_name, Location};
use crate::vectordb::store::{backend_name, VectorStore};
use vstd::prelude::*;
use vstd::string::StringExecFns;

verus! {

/// What changed since a manifest was written, as relative paths.
#[derive(Debug)]
pub struct ManifestDiff {
    pub added: Vec<String>,
    pub modified: Vec<String>,
    pub deleted: Vec<String>,
}

impl ManifestDiff {
    /// Whether nothing changed.
    pub fn is_empty(&self) -> (r: bool)
        ensures
            r == (self.added@.len() == 0 && self.modified@.len() == 0 && self.deleted@.len() == 0),
    {
        self.added.len() == 0 && self.modified.len() == 0 && self.deleted.len() == 0
    }
}

/// Whether a manifest is there, and was made with the settings of this run.
#[derive(Debug, Clone, Copy, PartialEq, Eq, Structural)]
pub enum ManifestState {
    Absent,
    Incompatible,
    Compatible,
}

/// What became of a batch of chunks.
#[derive(Debug)]
pub enum BatchReport {
    Stored { embedded: usize, inserted: usize, warnings: Vec<String> },
    Failed(String),
    Panicked(String),
}

/// What a run's host reports. An error comes with its text.
#[derive(Debug)]
pub enum Event {
    /// Whether a manifest and a lexical index exist; nothing where that could not
    /// be found out.
    Looked { manifest: Option<bool>, lexical: Option<bool> },
    /// Whether the collection exists.
    Collection(Result<bool, String>),
    /// The backend that the provenance record names, if there is a record.
    BackendRecord(Result<Option<String>, String>),
    /// The files of the codebase.
    Walked(Result<Vec<HostPath>, String>),
    Manifest(Result<ManifestState, String>),
    Compared(Result<ManifestDiff, String>),
    /// The rows of the collection, if they could be counted.
    Rows(Option<u64>),
    /// What was asked for was tried.
    Done(Result<(), String>),
    /// So many files are split by now.
    FileSplit(usize),
    /// The chunks of every file that was to be read, or why it could not be split.
    Split(Vec<Result<Vec<CodeChunk>, String>>),
    Batch(BatchReport),
    /// No batch is left, and the lexical index was updated or was not.
    Populated(Result<(), String>),
}

/// What a run did.
#[derive(Debug)]
pub struct IndexResult {
    pub files_processed: usize,
    pub chunks_created: usize,
    pub embeddings_generated: usize,
    pub vectors_inserted: usize,
    pub duration_ms: u64,
    pub warnings: Vec<String>,
    pub lexical_only: bool,
}

#[verifier::ext_equal]
pub struct ResultView {
    pub files_processed: usize,
    pub chunks_created: usize,
    pub embeddings_generated: usize,
    pub vectors_inserted: usize,
    pub duration_ms: u64,
    pub warnings: Seq<Seq<char>>,
    pub lexical_only: bool,
}

impl View for IndexResult {
    type V = ResultView;

    open spec fn view(&self) -> ResultView {
        ResultView {
            files_processed: self.files_processed,
            chunks_created: self.chunks_created,
            embeddings_generated: self.embeddings_generated,
            vectors_inserted: self.vectors_inserted,
            duration_ms: self.duration_ms,
            warnings: views(self.warnings@),
            lexical_only: self.lexical_only,
        }
    }
}

/// Why a run did not succeed: what it says, and the text of the error behind it.
#[derive(Debug)]
pub struct IndexError {
    pub message: String,
    pub cause: Option<String>,
}

#[verifier::ext_equal]
pub struct ErrorView {
    pub message: Seq<char>,
    pub cause: Option<Seq<char>>,
}

impl View for IndexError {
    type V = ErrorView;

    open spec fn view(&self) -> ErrorView {
        ErrorView { message: self.message@, cause: view_opt(self.cause) }
    }
}

/// What runs over one codebase share.
#[derive(Debug)]
pub struct IndexerState {
    pub indexing_status: IndexStatus,
    pub embeddings_enabled: bool,
    pub vector_store: VectorStore,
    pub embedding_dimension: usize,
    pub concurrency: usize,
}

impl IndexerState {
    /// A state with sixteen embedding batches at once.
    pub fn new(
        embeddings_enabled: bool,
        vector_store: VectorStore,
        embedding_dimension: usize,
    ) -> (r: Self)
        ensures
            r.indexing_status == nothing_counted(IndexState::Idle),
            r.embeddings_enabled == embeddings_enabled,
            r.vector_store == vector_store,
            r.embedding_dimension == embedding_dimension,
            r.concurrency == 16,
    {
        Self::with_concurrency(embeddings_enabled, vector_store, embedding_dimension, 16)
    }

    /// A state with `concurrency` embedding batches at once, but at least one.
    pub fn with_concurrency(
        embeddings_enabled: bool,
        vector_store: VectorStore,
        embedding_dimension: usize,
        concurrency: usize,
    ) -> (r: Self)
        ensures
            r.indexing_status == nothing_counted(IndexState::Idle),
            r.embeddings_enabled == embeddings_enabled,
            r.vector_store == vector_store,
            r.embedding_dimension == embedding_dimension,
            r.concurrency == if concurrency == 0 {
                1
            } else {
                concurrency
            },
    {
        IndexerState {
            indexing_status: IndexStatus::default(),
            embeddings_enabled,
            vector_store,
            embedding_dimension,
            concurrency: if concurrency == 0 {
                1
            } else {
                concurrency
            },
        }
    }

    pub fn get_status(&self) -> (r: IndexStatus)
        ensures
            r == self.indexing_status,
    {
        self.indexing_status
    }
}

/// The files that a comparison found added or modified, in their order.
pub open spec fn changed_files(
    root: Seq<u8>,
    files: Seq<Seq<u8>>,
    changed: Seq<Seq<char>>,
) -> Seq<Seq<u8>>
    decreases files.len(),
{
    if files.len() == 0 {
        Seq::empty()
    } else {
        let earlier = changed_files(root, files.drop_last(), changed);
        if changed.contains(path_text(relative_or_whole(files.last(), root))) {
            earlier.push(files.last())
        } else {
            earlier
        }
    }
}

/// Selects the files that a comparison found added or modified.
pub fn select_changed(root: &HostPath, files: &[HostPath], diff: &ManifestDiff) -> (r: Vec<
    HostPath,
>)
    ensures
        views(r@) == changed_files(
            root@,
            views(files@),
            views(diff.added@) + views(diff.modified@),
        ),
{
    let ghost all = views(files@);
    let ghost changed = views(diff.added@) + views(diff.modified@);
    let mut selected: Vec<HostPath> = Vec::new();
    let mut i: usize = 0;
    assert(all.take(0) =~= Seq::empty());
    assert(views(selected@) =~= changed_files(root@, all.take(0), changed));
    while i < files.len()
        invariant
            i <= files@.len(),
            all == views(files@),
            changed == views(diff.added@) + views(diff.modified@),
            views(selected@) == changed_files(root@, all.take(i as int), changed),
        decreases files@.len() - i,
    {
        let relative = files[i].relative_text(root);
        proof {
            assert(all.take(i + 1).drop_last() =~= all.take(i as int));
            assert(all.take(i + 1).last() == files@[i as int]@);
            lemma_contains_add(views(diff.added@), views(diff.modified@), relative@);
        }
        if contains_text(diff.added.as_slice(), relative.as_str()) || contains_text(
            diff.modified.as_slice(),
            relative.as_str(),
        ) {
            let file = files[i].clone();
            proof {
                crate::text::lemma_views_push(selected@, file);
            }
            selected.push(file);
        }
        i += 1;
    }
    assert(all.take(all.len() as int) =~= all);
    selected
}

proof fn lemma_contains_add<T>(a: Seq<T>, b: Seq<T>, item: T)
    ensures
        (a + b).contains(item) == (a.contains(item) || b.contains(item)),
{
    if a.contains(item) {
        let i = choose|i: int| 0 <= i < a.len() && a[i] == item;
        assert((a + b)[i] == item);
    }
    if b.contains(item) {
        let i = choose|i: int| 0 <= i < b.len() && b[i] == item;
        assert((a + b)[a.len() + i] == item);
    }
}

/// The files whose entries a comparison found stale: the deleted ones, then the
/// modified ones.
pub fn stale_paths(diff: &ManifestDiff) -> (r: Vec<String>)
    ensures
        views(r@) == views(diff.deleted@) + views(diff.modified@),
{
    let mut stale: Vec<String> = Vec::new();
    push_all(&mut stale, diff.deleted.as_slice());
    push_all(&mut stale, diff.modified.as_slice());
    assert(views(stale@) =~= views(diff.deleted@) + views(diff.modified@));
    stale
}

fn push_all(out: &mut Vec<String>, items: &[String])
    ensures
        views(final(out)@) == views(old(out)@) + views(items@),
{
    let ghost start = views(out@);
    let mut i: usize = 0;
    assert(views(out@) =~= start + views(items@).take(0));
    while i < items.len()
        invariant
            i <= items@.len(),
            views(out@) == start + views(items@).take(i as int),
        decreases items@.len() - i,
    {
        let item = items[i].clone();
        proof {
            crate::text::lemma_views_push(out@, item);
            assert(views(items@).take(i + 1) =~= views(items@).take(i as int).push(item@));
            assert((start + views(items@).take(i as int)).push(item@) =~= start + views(
                items@,
            ).take(i + 1));
        }
        out.push(item);
        i += 1;
    }
    assert(views(items@).take(items@.len() as int) =~= views(items@));
}

/// A run over a codebase.
#[derive(Debug)]
pub struct IndexRun {
    control: RunControl,
    path: HostPath,
    collection: String,
    backend: String,
    recorded_backend: String,
    files: Vec<HostPath>,
    changed: Vec<HostPath>,
    stale: Vec<String>,
    chunks: Vec<CodeChunk>,
    warnings: Vec<String>,
    batch_failures: Vec<String>,
    cause: Option<String>,
}

#[verifier::ext_equal]
pub struct RunView {
    /// The decisions so far.
    pub control: RunControl,
    pub path: Seq<u8>,
    pub collection: Seq<char>,
    /// The backend in use.
    pub backend: Seq<char>,
    /// The backend that the provenance record names, once one was read.
    pub recorded_backend: Seq<char>,
    /// All files of the codebase.
    pub files: Seq<Seq<u8>>,
    /// Those that were added or modified.
    pub changed: Seq<Seq<u8>>,
    /// The relative paths of those that were deleted or modified.
    pub stale: Seq<Seq<char>>,
    /// The chunks that are still to be stored.
    pub chunks: Seq<CodeChunk>,
    pub warnings: Seq<Seq<char>>,
    pub batch_failures: Seq<Seq<char>>,
    /// The text of the error that ended the run.
    pub cause: Option<Seq<char>>,
}

impl View for IndexRun {
    type V = RunView;

    closed spec fn view(&self) -> RunView {
        RunView {
            control: self.control,
            path: self.path@,
            collection: self.collection@,
            backend: self.backend@,
            recorded_backend: self.recorded_backend@,
            files: views(self.files@),
            changed: views(self.changed@),
            stale: views(self.stale@),
            chunks: self.chunks@,
            warnings: views(self.warnings@),
            batch_failures: views(self.batch_failures@),
            cause: view_opt(self.cause),
        }
    }
}

/// A run at its start.
pub open spec fn begun(
    mode: Mode,
    state: IndexerState,
    location: Location,
    previous: Option<IndexStatus>,
) -> RunView {
    RunView {
        control: started(mode, state.embeddings_enabled, previous),
        path: location.path@,
        collection: collection_name(location.path@, location.identity()),
        backend: backend_name(state.vector_store.server()),
        recorded_backend: Seq::empty(),
        files: Seq::empty(),
        changed: Seq::empty(),
        stale: Seq::empty(),
        chunks: Seq::empty(),
        warnings: Seq::empty(),
        batch_failures: Seq::empty(),
        cause: None,
    }
}

/// The files that the run reads: all of them, or those that changed.
pub open spec fn to_read(run: RunView) -> Seq<Seq<u8>> {
    if run.control.full_reindex {
        run.files
    } else {
        run.changed
    }
}

/// The relative paths whose entries the run removes first.
pub open spec fn to_remove(run: RunView) -> Seq<Seq<char>> {
    if run.control.full_reindex {
        Seq::empty()
    } else {
        run.stale
    }
}

/// The files that a comparison found changed.
pub open spec fn changed_by(run: RunView, diff: ManifestDiff) -> Seq<Seq<u8>> {
    changed_files(run.path, run.files, views(diff.added@) + views(diff.modified@))
}

/// What a report comes to for the decisions of a run.
pub open spec fn signal_of(run: RunView, event: Event) -> Signal {
    match event {
        Event::Looked { manifest, lexical } => Signal::Looked { manifest, lexical },
        Event::Collection(Ok(has)) => Signal::Collection(Some(has)),
        Event::Collection(Err(_)) => Signal::Collection(None),
        Event::BackendRecord(Ok(None)) => Signal::Record(RecordFact::Absent),
        Event::BackendRecord(Ok(Some(name))) => if name@ == run.backend {
            Signal::Record(RecordFact::Same)
        } else {
            Signal::Record(RecordFact::Differs)
        },
        Event::BackendRecord(Err(_)) => Signal::Record(RecordFact::Unreadable),
        Event::Walked(Ok(files)) => Signal::Walked(Some(files@.len() as usize)),
        Event::Walked(Err(_)) => Signal::Walked(None),
        Event::Manifest(Ok(ManifestState::Absent)) => Signal::Manifest(ManifestFact::Absent),
        Event::Manifest(Ok(ManifestState::Incompatible)) => Signal::Manifest(
            ManifestFact::Incompatible,
        ),
        Event::Manifest(Ok(ManifestState::Compatible)) => Signal::Manifest(
            ManifestFact::Compatible,
        ),
        Event::Manifest(Err(_)) => Signal::Manifest(ManifestFact::Unreadable),
        Event::Compared(Ok(diff)) => Signal::Diff(
            Some(
                DiffFact {
                    empty: diff.added@.len() == 0 && diff.modified@.len() == 0
                        && diff.deleted@.len() == 0,
                    changed_files: changed_by(run, diff).len() as usize,
                    stale: diff.modified@.len() > 0 || diff.deleted@.len() > 0,
                },
            ),
        ),
        Event::Compared(Err(_)) => Signal::Diff(None),
        Event::Rows(count) => Signal::Rows(count),
        Event::Done(outcome) => Signal::Done(outcome is Ok),
        Event::FileSplit(count) => Signal::FileSplit(count),
        Event::Split(results) => Signal::Chunked(chunks_of(results@).len() as usize),
        Event::Batch(BatchReport::Stored { embedded, inserted, .. }) => Signal::BatchStored {
            embedded,
            inserted,
        },
        Event::Batch(_) => Signal::BatchFailed,
        Event::Populated(outcome) => Signal::Populated { lexical_stored: outcome is Ok },
    }
}

/// The text of the error that a report tells of.
pub open spec fn error_text(event: Event) -> Option<Seq<char>> {
    match event {
        Event::Collection(Err(text)) => Some(text@),
        Event::BackendRecord(Err(text)) => Some(text@),
        Event::Walked(Err(text)) => Some(text@),
        Event::Manifest(Err(text)) => Some(text@),
        Event::Compared(Err(text)) => Some(text@),
        Event::Done(Err(text)) => Some(text@),
        Event::Populated(Err(text)) => Some(text@),
        _ => None,
    }
}

/// What is amiss with the counts after the batches: a rebuilt collection that
/// does not have as many rows as were accepted, and embeddings that were not
/// accepted.
pub open spec fn count_warnings(c: RunControl, rows: Option<u64>) -> Seq<Seq<char>> {
    let unlike = match rows {
        Some(count) => c.full_reindex && capped(count) != c.vectors,
        None => false,
    };
    let first = if unlike {
        seq![
            "Vector store stats report "@ + decimal(capped(rows->0) as nat) + " rows after "@
                + decimal(c.vectors as nat)
                + " accepted inserts; preserving the insert response count"@,
        ]
    } else {
        Seq::empty()
    };
    if c.vectors < c.embeddings {
        first.push(
            "Vector store accepted "@ + decimal(c.vectors as nat) + " rows for "@ + decimal(
                c.embeddings as nat,
            ) + " generated embeddings"@,
        )
    } else {
        first
    }
}

/// The data of a run after a report.
pub open spec fn gathers(run: RunView, event: Event) -> RunView {
    match (run.control.phase, event) {
        (Phase::RecordGate, Event::BackendRecord(Ok(Some(name)))) => RunView {
            recorded_backend: name@,
            ..run
        },
        (Phase::BackendGate, Event::BackendRecord(Ok(Some(name)))) => RunView {
            recorded_backend: name@,
            ..run
        },
        (Phase::Walk, Event::Walked(Ok(files))) => RunView { files: views(files@), ..run },
        (Phase::Diff, Event::Compared(Ok(diff))) => RunView {
            changed: changed_by(run, diff),
            stale: views(diff.deleted@) + views(diff.modified@),
            ..run
        },
        (Phase::Split, Event::Split(results)) => RunView {
            chunks: chunks_of(results@),
            warnings: run.warnings + failures_of(results@),
            ..run
        },
        (Phase::Populate, Event::Batch(report)) => if !embeds(run.control) {
            run
        } else {
            match report {
                BatchReport::Stored { warnings, .. } => RunView {
                    warnings: run.warnings + views(warnings@),
                    ..run
                },
                BatchReport::Failed(text) => RunView {
                    batch_failures: run.batch_failures.push("Streaming batch failed: "@ + text@),
                    ..run
                },
                BatchReport::Panicked(text) => RunView {
                    batch_failures: run.batch_failures.push(
                        "Streaming batch task panicked: "@ + text@,
                    ),
                    ..run
                },
            }
        },
        (Phase::RowsAfter, Event::Rows(count)) => RunView {
            warnings: run.warnings + count_warnings(run.control, count),
            ..run
        },
        _ => run,
    }
}

/// The run after a report.
pub open spec fn run_step(run: RunView, event: Event) -> RunView {
    let control = step(run.control, signal_of(run, event)).0;
    let cause = if control.phase is Finished && !(run.control.phase is Finished) {
        error_text(event)
    } else {
        run.cause
    };
    RunView { control, cause, ..gathers(run, event) }
}

/// What a refused run says.
pub open spec fn refusal_text(run: RunView, refusal: Refusal) -> Seq<char> {
    match refusal {
        Refusal::LexicalIndexMissing => "Incremental update requires an existing lexical index for "@
            + path_text(run.path) + "; run index --force to rebuild"@,
        Refusal::CollectionUnknown => "Failed to check for an existing vector collection"@,
        Refusal::RecordUnreadable => "Failed to read backend provenance record"@,
        Refusal::SemanticIndexExists => "A semantic index exists for "@ + path_text(run.path)
            + " (collection "@ + run.collection
            + ", a recorded vector count, or a backend provenance record) but embeddings are disabled; set EMBEDDING_URL (and MILVUS_URL if the vectors live in Milvus) to keep it current, or clear the index before lexical-only indexing"@,
        Refusal::BackendDiffers => "The recorded index was built against vector backend '"@
            + run.recorded_backend + "' but the current backend is '"@ + run.backend
            + "'; configure the recorded backend and run clear to retire its collection before re-indexing here"@,
        Refusal::WalkFailed => "Failed to walk codebase"@,
        Refusal::ManifestUnreadable => "Failed to load index manifest"@,
        Refusal::ManifestMissing => "Incremental update requires an existing index manifest; run index_codebase first only when a full build is intended"@,
        Refusal::ManifestIncompatible => "Incremental update requires a compatible index manifest; run index_codebase only when a full rebuild is intended"@,
        Refusal::DiffFailed => "Failed to diff index manifest"@,
        Refusal::CollectionLookupFailed => "Failed to check vector collection existence"@,
        Refusal::CollectionMissing => "Incremental update requires existing vector collection "@
            + run.collection + "; run index_codebase only when a full rebuild is intended"@,
    }
}

/// What a failed run says.
pub open spec fn failure_text(run: RunView, failure: Failure) -> Seq<char> {
    match failure {
        Failure::PrepareVectors => "Failed to prepare vector collection"@,
        Failure::PrepareLexical => "Failed to prepare lexical index"@,
        Failure::DeleteVectors => "Failed to delete stale vectors"@,
        Failure::WriteManifest => "Failed to write index manifest"@,
        Failure::RecordBackend => "Failed to record vector backend provenance"@,
        Failure::UpdateLexical => "Failed to update lexical index"@,
        Failure::BatchesFailed => "Streaming index failed after inserting "@ + decimal(
            run.control.vectors as nat,
        ) + " vectors: "@ + joined(run.batch_failures, "; "@),
        Failure::NoEmbeddings => "Failed to generate any embeddings"@,
        Failure::NoVectors => "Generated "@ + decimal(run.control.chunks as nat) + " chunks and "@
            + decimal(run.control.embeddings as nat) + " embeddings, but inserted 0 vectors"@ + (
        if run.warnings.len() == 0 {
            Seq::empty()
        } else {
            " ("@ + joined(run.warnings, "; "@) + ")"@
        }),
    }
}

/// What an ended run reports after `duration_ms` milliseconds.
pub open spec fn report(run: RunView, duration_ms: u64) -> Option<Result<ResultView, ErrorView>> {
    match run.control.phase {
        Phase::Finished(Outcome::Refused(refusal)) => Some(
            Err(ErrorView { message: refusal_text(run, refusal), cause: run.cause }),
        ),
        Phase::Finished(Outcome::Failed(failure)) => Some(
            Err(ErrorView { message: failure_text(run, failure), cause: run.cause }),
        ),
        Phase::Finished(Outcome::UpToDate) => Some(
            Ok(
                ResultView {
                    files_processed: 0,
                    chunks_created: 0,
                    embeddings_generated: 0,
                    vectors_inserted: run.control.vectors,
                    duration_ms,
                    warnings: seq!["already up to date"@],
                    lexical_only: !run.control.embeddings_enabled,
                },
            ),
        ),
        Phase::Finished(Outcome::NothingToRead) => Some(
            Ok(
                ResultView {
                    files_processed: 0,
                    chunks_created: 0,
                    embeddings_generated: 0,
                    vectors_inserted: 0,
                    duration_ms,
                    warnings: run.warnings,
                    lexical_only: !run.control.embeddings_enabled,
                },
            ),
        ),
        Phase::Finished(Outcome::Indexed) => Some(
            Ok(
                ResultView {
                    files_processed: run.control.selected_files,
                    chunks_created: run.control.chunks,
                    embeddings_generated: run.control.embeddings,
                    vectors_inserted: run.control.vectors,
                    duration_ms,
                    warnings: run.warnings,
                    lexical_only: !run.control.embeddings_enabled,
                },
            ),
        ),
        _ => None,
    }
}

/// What `index_codebase` and `update_codebase_index` begin.
pub open spec fn begins(
    before: IndexerState,
    after: IndexerState,
    location: Location,
    mode: Mode,
    previous: Option<IndexStatus>,
    r: Result<(IndexRun, Persist), IndexError>,
) -> bool {
    if before.indexing_status.status == IndexState::Indexing && mode != Mode::Rebuild {
        &&& after == before
        &&& r is Err
        &&& r->Err_0@ == (ErrorView { message: "Indexing already in progress"@, cause: None })
    } else {
        &&& after == (IndexerState {
            indexing_status: nothing_counted(IndexState::Indexing),
            ..before
        })
        &&& r is Ok
        &&& r->Ok_0.0@ == begun(mode, before, location, previous)
        &&& r->Ok_0.1 == Persist::Write(nothing_counted(IndexState::Indexing))
    }
}

/// Begins a full or manifest-guided build; `force` rebuilds from scratch.
/// `previous` is the status record from before the run.
pub fn index_codebase(
    state: &mut IndexerState,
    location: &Location,
    force: bool,
    previous: Option<IndexStatus>,
) -> (r: Result<(IndexRun, Persist), IndexError>)
    ensures
        begins(
            *old(state),
            *final(state),
            *location,
            if force {
                Mode::Rebuild
            } else {
                Mode::Index
            },
            previous,
            r,
        ),
{
    begin(
        state,
        location,
        if force {
            Mode::Rebuild
        } else {
            Mode::Index
        },
        previous,
    )
}

/// Begins an incremental update.
pub fn update_codebase_index(
    state: &mut IndexerState,
    location: &Location,
    previous: Option<IndexStatus>,
) -> (r: Result<(IndexRun, Persist), IndexError>)
    ensures
        begins(*old(state), *final(state), *location, Mode::Update, previous, r),
{
    begin(state, location, Mode::Update, previous)
}

fn begin(
    state: &mut IndexerState,
    location: &Location,
    mode: Mode,
    previous: Option<IndexStatus>,
) -> (r: Result<(IndexRun, Persist), IndexError>)
    ensures
        begins(*old(state), *final(state), *location, mode, previous, r),
{
    let current = state.indexing_status;
    match RunControl::start(mode, state.embeddings_enabled, current, previous) {
        None => Err(
            IndexError { message: "Indexing already in progress".to_owned(), cause: None },
        ),
        Some((control, persist)) => {
            let run = IndexRun {
                control,
                path: location.path.clone(),
                collection: location.collection_name(),
                backend: state.vector_store.provenance(),
                recorded_backend: String::new(),
                files: Vec::new(),
                changed: Vec::new(),
                stale: Vec::new(),
                chunks: Vec::new(),
                warnings: Vec::new(),
                batch_failures: Vec::new(),
                cause: None,
            };
            assert(run@ =~= begun(mode, *old(state), *location, previous));
            state.indexing_status = control.status;
            Ok((run, persist))
        },
    }
}

impl IndexRun {
    /// What the run asks of its host.
    pub fn ask(&self) -> (r: Ask)
        ensures
            r == ask_of(self@.control),
    {
        self.control.ask()
    }

    pub fn path(&self) -> (r: &HostPath)
        ensures
            r@ == self@.path,
    {
        &self.path
    }

    pub fn collection_name(&self) -> (r: &str)
        ensures
            r@ == self@.collection,
    {
        self.collection.as_str()
    }

    /// The backend to record as that of the index.
    pub fn backend(&self) -> (r: &str)
        ensures
            r@ == self@.backend,
    {
        self.backend.as_str()
    }

    /// All files of the codebase.
    pub fn files(&self) -> (r: &Vec<HostPath>)
        ensures
            views(r@) == self@.files,
    {
        &self.files
    }

    /// The files to read.
    pub fn files_to_index(&self) -> (r: &Vec<HostPath>)
        ensures
            views(r@) == to_read(self@),
    {
        if self.control.full_reindex {
            &self.files
        } else {
            &self.changed
        }
    }

    /// The relative paths whose entries are to be removed.
    pub fn stale_relative_paths(&self) -> (r: &[String])
        ensures
            views(r@) == to_remove(self@),
    {
        if self.control.full_reindex {
            let none: &[String] = &[];
            assert(views(none@) =~= Seq::<Seq<char>>::empty());
            none
        } else {
            self.stale.as_slice()
        }
    }

    /// Hands the chunks over to be stored.
    pub fn take_chunks(&mut self) -> (r: Vec<CodeChunk>)
        ensures
            r@ == old(self)@.chunks,
            final(self)@ == (RunView { chunks: Seq::empty(), ..old(self)@ }),
    {
        let ghost before = self@;
        let mut chunks: Vec<CodeChunk> = Vec::new();
        std::mem::swap(&mut chunks, &mut self.chunks);
        assert(self@ =~= (RunView { chunks: Seq::empty(), ..before }));
        chunks
    }

    /// Whether the counters can take in the report.
    pub fn can_count(&self, event: &Event) -> (r: bool)
        ensures
            r == countable(self@.control, signal_of(self@, *event)),
    {
        match event {
            Event::Batch(BatchReport::Stored { embedded, inserted, .. }) => {
                *embedded <= usize::MAX - self.control.embeddings && *inserted <= usize::MAX
                    - self.control.vectors
            },
            _ => true,
        }
    }

    /// What a report comes to for the decisions of the run, and the text of the
    /// error it tells of. Data that later steps need is kept.
    fn gather(&mut self, event: Event) -> (r: (Signal, Option<String>))
        ensures
            r.0 == signal_of(old(self)@, event),
            view_opt(r.1) == error_text(event),
            final(self)@ == gathers(old(self)@, event),
    {
        let ghost start = self@;
        match event {
            Event::Looked { manifest, lexical } => (Signal::Looked { manifest, lexical }, None),
            Event::Collection(Ok(has)) => (Signal::Collection(Some(has)), None),
            Event::Collection(Err(text)) => (Signal::Collection(None), Some(text)),
            Event::BackendRecord(Ok(None)) => (Signal::Record(RecordFact::Absent), None),
            Event::BackendRecord(Ok(Some(name))) => {
                let same = same_text(name.as_str(), self.backend.as_str());
                let at_gate = match self.control.phase {
                    Phase::RecordGate | Phase::BackendGate => true,
                    _ => false,
                };
                if at_gate {
                    self.recorded_backend = name;
                    assert(self@ =~= gathers(start, event));
                }
                (
                    Signal::Record(
                        if same {
                            RecordFact::Same
                        } else {
                            RecordFact::Differs
                        },
                    ),
                    None,
                )
            },
            Event::BackendRecord(Err(text)) => {
                (Signal::Record(RecordFact::Unreadable), Some(text))
            },
            Event::Walked(Ok(files)) => {
                let count: usize = files.len();
                if let Phase::Walk = self.control.phase {
                    self.files = files;
                    assert(self@ =~= gathers(start, event));
                }
                (Signal::Walked(Some(count)), None)
            },
            Event::Walked(Err(text)) => (Signal::Walked(None), Some(text)),
            Event::Manifest(Ok(state)) => {
                (
                    Signal::Manifest(
                        match state {
                            ManifestState::Absent => ManifestFact::Absent,
                            ManifestState::Incompatible => ManifestFact::Incompatible,
                            ManifestState::Compatible => ManifestFact::Compatible,
                        },
                    ),
                    None,
                )
            },
            Event::Manifest(Err(text)) => {
                (Signal::Manifest(ManifestFact::Unreadable), Some(text))
            },
            Event::Compared(Ok(diff)) => {
                let changed = select_changed(&self.path, self.files.as_slice(), &diff);
                let stale = stale_paths(&diff);
                let fact = DiffFact {
                    empty: diff.is_empty(),
                    changed_files: changed.len(),
                    stale: diff.modified.len() > 0 || diff.deleted.len() > 0,
                };
                assert(changed@.len() == views(changed@).len());
                if let Phase::Diff = self.control.phase {
                    self.changed = changed;
                    self.stale = stale;
                    assert(self@ =~= gathers(start, event));
                }
                (Signal::Diff(Some(fact)), None)
            },
            Event::Compared(Err(text)) => (Signal::Diff(None), Some(text)),
            Event::Rows(count) => {
                if let Phase::RowsAfter = self.control.phase {
                    self.warn_of_counts(count);
                }
                (Signal::Rows(count), None)
            },
            Event::Done(Ok(_)) => (Signal::Done(true), None),
            Event::Done(Err(text)) => (Signal::Done(false), Some(text)),
            Event::FileSplit(count) => (Signal::FileSplit(count), None),
            Event::Split(results) => {
                let (chunks, failures) = merge_split_results(results);
                let count: usize = chunks.len();
                if let Phase::Split = self.control.phase {
                    self.chunks = chunks;
                    push_all(&mut self.warnings, failures.as_slice());
                    assert(self@ =~= gathers(start, event));
                }
                (Signal::Chunked(count), None)
            },
            Event::Batch(report) => {
                let ours = match self.control.phase {
                    Phase::Populate => self.control.embeddings_enabled && self.control.chunks > 0,
                    _ => false,
                };
                let signal = match report {
                    BatchReport::Stored { embedded, inserted, warnings } => {
                        if ours {
                            push_all(&mut self.warnings, warnings.as_slice());
                            assert(self@ =~= gathers(start, event));
                        }
                        Signal::BatchStored { embedded, inserted }
                    },
                    BatchReport::Failed(text) => {
                        if ours {
                            self.note_failure("Streaming batch failed: ", text.as_str());
                        }
                        Signal::BatchFailed
                    },
                    BatchReport::Panicked(text) => {
                        if ours {
                            self.note_failure("Streaming batch task panicked: ", text.as_str());
                        }
                        Signal::BatchFailed
                    },
                };
                (signal, None)
            },
            Event::Populated(Ok(_)) => (Signal::Populated { lexical_stored: true }, None),
            Event::Populated(Err(text)) => {
                (Signal::Populated { lexical_stored: false }, Some(text))
            },
        }
    }

    fn note_failure(&mut self, lead: &str, text: &str)
        ensures
            final(self)@ == (RunView {
                batch_failures: old(self)@.batch_failures.push(lead@ + text@),
                ..old(self)@
            }),
    {
        let ghost start = self@;
        let mut failure = lead.to_owned();
        failure.append(text);
        proof {
            crate::text::lemma_views_push(self.batch_failures@, failure);
        }
        self.batch_failures.push(failure);
        assert(self@ =~= (RunView {
            batch_failures: start.batch_failures.push(lead@ + text@),
            ..start
        }));
    }

    fn warn_of_counts(&mut self, rows: Option<u64>)
        ensures
            final(self)@ == (RunView {
                warnings: old(self)@.warnings + count_warnings(old(self)@.control, rows),
                ..old(self)@
            }),
    {
        let ghost start = self@;
        let mut more: Vec<String> = Vec::new();
        if let Some(count) = rows {
            let row_count = checked_vector_row_count(count);
            if self.control.full_reindex && row_count != self.control.vectors {
                let mut text = "Vector store stats report ".to_owned();
                push_decimal(&mut text, row_count as u64);
                text.append(" rows after ");
                push_decimal(&mut text, self.control.vectors as u64);
                text.append(" accepted inserts; preserving the insert response count");
                more.push(text);
            }
        }
        if self.control.vectors < self.control.embeddings {
            let mut text = "Vector store accepted ".to_owned();
            push_decimal(&mut text, self.control.vectors as u64);
            text.append(" rows for ");
            push_decimal(&mut text, self.control.embeddings as u64);
            text.append(" generated embeddings");
            more.push(text);
        }
        assert(views(more@) =~= count_warnings(start.control, rows));
        push_all(&mut self.warnings, more.as_slice());
        assert(self@ =~= (RunView {
            warnings: start.warnings + count_warnings(start.control, rows),
            ..start
        }));
    }

    /// Takes in what the host reports, shows the status that follows, and says what
    /// becomes of the status record on disk.
    pub fn advance(&mut self, state: &mut IndexerState, event: Event) -> (r: Persist)
        requires
            countable(old(self)@.control, signal_of(old(self)@, event)),
        ensures
            final(self)@ == run_step(old(self)@, event),
            r == step(old(self)@.control, signal_of(old(self)@, event)).1,
            *final(state) == (IndexerState {
                indexing_status: final(self)@.control.status,
                ..*old(state)
            }),
    {
        let ghost start = self@;
        let was_finished = match self.control.phase {
            Phase::Finished(_) => true,
            _ => false,
        };
        let (signal, cause) = self.gather(event);
        let mut control = self.control;
        let persist = control.advance(signal);
        self.control = control;
        if let Phase::Finished(_) = control.phase {
            if !was_finished {
                self.cause = cause;
            }
        }
        state.indexing_status = control.status;
        assert(self@ =~= run_step(start, event));
        persist
    }

    fn refusal_message(&self, refusal: Refusal) -> (r: String)
        ensures
            r@ == refusal_text(self@, refusal),
    {
        match refusal {
            Refusal::LexicalIndexMissing => {
                let mut text = "Incremental update requires an existing lexical index for ".to_owned();
                text.append(self.path.to_text().as_str());
                text.append("; run index --force to rebuild");
                text
            },
            Refusal::CollectionUnknown => {
                "Failed to check for an existing vector collection".to_owned()
            },
            Refusal::RecordUnreadable => "Failed to read backend provenance record".to_owned(),
            Refusal::SemanticIndexExists => {
                let mut text = "A semantic index exists for ".to_owned();
                text.append(self.path.to_text().as_str());
                text.append(" (collection ");
                text.append(self.collection.as_str());
                text.append(
                    ", a recorded vector count, or a backend provenance record) but embeddings are disabled; set EMBEDDING_URL (and MILVUS_URL if the vectors live in Milvus) to keep it current, or clear the index before lexical-only indexing",
                );
                text
            },
            Refusal::BackendDiffers => {
                let mut text = "The recorded index was built against vector backend '".to_owned();
                text.append(self.recorded_backend.as_str());
                text.append("' but the current backend is '");
                text.append(self.backend.as_str());
                text.append(
                    "'; configure the recorded backend and run clear to retire its collection before re-indexing here",
                );
                text
            },
            Refusal::WalkFailed => "Failed to walk codebase".to_owned(),
            Refusal::ManifestUnreadable => "Failed to load index manifest".to_owned(),
            Refusal::ManifestMissing => {
                "Incremental update requires an existing index manifest; run index_codebase first only when a full build is intended".to_owned()
            },
            Refusal::ManifestIncompatible => {
                "Incremental update requires a compatible index manifest; run index_codebase only when a full rebuild is intended".to_owned()
            },
            Refusal::DiffFailed => "Failed to diff index manifest".to_owned(),
            Refusal::CollectionLookupFailed => {
                "Failed to check vector collection existence".to_owned()
            },
            Refusal::CollectionMissing => {
                let mut text = "Incremental update requires existing vector collection ".to_owned();
                text.append(self.collection.as_str());
                text.append("; run index_codebase only when a full rebuild is intended");
                text
            },
        }
    }

    fn failure_message(&self, failure: Failure) -> (r: String)
        ensures
            r@ == failure_text(self@, failure),
    {
        match failure {
            Failure::PrepareVectors => "Failed to prepare vector collection".to_owned(),
            Failure::PrepareLexical => "Failed to prepare lexical index".to_owned(),
            Failure::DeleteVectors => "Failed to delete stale vectors".to_owned(),
            Failure::WriteManifest => "Failed to write index manifest".to_owned(),
            Failure::RecordBackend => "Failed to record vector backend provenance".to_owned(),
            Failure::UpdateLexical => "Failed to update lexical index".to_owned(),
            Failure::BatchesFailed => {
                let mut text = "Streaming index failed after inserting ".to_owned();
                push_decimal(&mut text, self.control.vectors as u64);
                text.append(" vectors: ");
                text.append(join_texts(self.batch_failures.as_slice(), "; ").as_str());
                text
            },
            Failure::NoEmbeddings => "Failed to generate any embeddings".to_owned(),
            Failure::NoVectors => {
                let mut text = "Generated ".to_owned();
                push_decimal(&mut text, self.control.chunks as u64);
                text.append(" chunks and ");
                push_decimal(&mut text, self.control.embeddings as u64);
                text.append(" embeddings, but inserted 0 vectors");
                if self.warnings.len() > 0 {
                    text.append(" (");
                    text.append(join_texts(self.warnings.as_slice(), "; ").as_str());
                    text.append(")");
                }
                assert(text@ =~= failure_text(self@, failure));
                text
            },
        }
    }

    /// What the run did, or why it did not succeed; nothing while it is under way.
    pub fn finish(self, duration_ms: u64) -> (r: Option<Result<IndexResult, IndexError>>)
        ensures
            (match r {
                Some(Ok(result)) => Some(Ok::<ResultView, ErrorView>(result@)),
                Some(Err(error)) => Some(Err(error@)),
                None => None,
            }) == report(self@, duration_ms),
    {
        let lexical_only = !self.control.embeddings_enabled;
        match self.control.phase {
            Phase::Finished(Outcome::Refused(refusal)) => {
                let message = self.refusal_message(refusal);
                Some(Err(IndexError { message, cause: self.cause }))
            },
            Phase::Finished(Outcome::Failed(failure)) => {
                let message = self.failure_message(failure);
                Some(Err(IndexError { message, cause: self.cause }))
            },
            Phase::Finished(Outcome::UpToDate) => {
                let mut warnings: Vec<String> = Vec::new();
                warnings.push("already up to date".to_owned());
                assert(views(warnings@) =~= seq!["already up to date"@]);
                Some(
                    Ok(
                        IndexResult {
                            files_processed: 0,
                            chunks_created: 0,
                            embeddings_generated: 0,
                            vectors_inserted: self.control.vectors,
                            duration_ms,
                            warnings,
                            lexical_only,
                        },
                    ),
                )
            },
            Phase::Finished(Outcome::NothingToRead) => Some(
                Ok(
                    IndexResult {
                        files_processed: 0,
                        chunks_created: 0,
                        embeddings_generated: 0,
                        vectors_inserted: 0,
                        duration_ms,
                        warnings: self.warnings,
                        lexical_only,
                    },
                ),
            ),
            Phase::Finished(Outcome::Indexed) => Some(
                Ok(
                    IndexResult {
                        files_processed: self.control.selected_files,
                        chunks_created: self.control.chunks,
                        embeddings_generated: self.control.embeddings,
                        vectors_inserted: self.control.vectors,
                        duration_ms,
                        warnings: self.warnings,
                        lexical_only,
                    },
                ),
            ),
            _ => None,
        }
    }
}

/// The run after the given reports.
pub open spec fn run_after(run: RunView, events: Seq<Event>) -> RunView
    decreases events.len(),
{
    if events.len() == 0 {
        run
    } else {
        run_step(run_after(run, events.drop_last()), events.last())
    }
}

/// What the given reports come to for the decisions of the run.
pub open spec fn signals_of(run: RunView, events: Seq<Event>) -> Seq<Signal>
    decreases events.len(),
{
    if events.len() == 0 {
        Seq::empty()
    } else {
        signals_of(run, events.drop_last()).push(
            signal_of(run_after(run, events.drop_last()), events.last()),
        )
    }
}

/// A run with its data decides as the bare decisions do on the signals of its
/// events, so that what holds of every history holds of every run.
pub proof fn law_run_decides_by_its_signals(run: RunView, events: Seq<Event>)
    ensures
        run_after(run, events).control == after(run.control, signals_of(run, events)),
    decreases events.len(),
{
    if events.len() > 0 {
        law_run_decides_by_its_signals(run, events.drop_last());
        let signals = signals_of(run, events);
        assert(signals.drop_last() =~= signals_of(run, events.drop_last()));
        reveal(next);
    }
}

/// A comparison selects exactly the files that it found added or modified.
pub proof fn law_changed_files_are_those_reported(
    root: Seq<u8>,
    files: Seq<Seq<u8>>,
    changed: Seq<Seq<char>>,
    file: Seq<u8>,
)
    ensures
        changed_files(root, files, changed).contains(file) <==> files.contains(file)
            && changed.contains(path_text(relative_or_whole(file, root))),
    decreases files.len(),
{
    if files.len() > 0 {
        let earlier = files.drop_last();
        let before = changed_files(root, earlier, changed);
        law_changed_files_are_those_reported(root, earlier, changed, file);
        assert(files =~= earlier.push(files.last()));
        lemma_contains_push(earlier, files.last(), file);
        lemma_contains_push(before, files.last(), file);
    }
}

proof fn lemma_contains_push<T>(items: Seq<T>, last: T, item: T)
    ensures
        items.push(last).contains(item) == (items.contains(item) || last == item),
{
    if items.contains(item) {
        let i = choose|i: int| 0 <= i < items.len() && items[i] == item;
        assert(items.push(last)[i] == item);
    }
    assert(items.push(last)[items.len() as int] == last);
}

/// The run has decided what to read.
spec fn decided(phase: Phase) -> bool {
    match phase {
        Phase::FindOld | Phase::DropOld | Phase::FindCurrent | Phase::Create => true,
        Phase::PrepareLexical | Phase::DeleteVectors => true,
        Phase::ManifestOnly | Phase::RowsOnly | Phase::RecordOnly => true,
        Phase::Split | Phase::Populate | Phase::RowsAfter => true,
        Phase::ManifestAfter | Phase::RecordAfter => true,
        Phase::Finished(Outcome::Indexed) | Phase::Finished(Outcome::NothingToRead) => true,
        _ => false,
    }
}

/// How much data a run has gathered.
struct Gathered {
    files: nat,
    changed: nat,
    stale: bool,
    failures: bool,
}

spec fn gathered(run: RunView) -> Gathered {
    Gathered {
        files: run.files.len(),
        changed: run.changed.len(),
        stale: run.stale.len() > 0,
        failures: run.batch_failures.len() > 0,
    }
}

/// What a signal adds to it.
spec fn gathers_more(c: RunControl, data: Gathered, signal: Signal) -> Gathered {
    match (c.phase, signal) {
        (Phase::Walk, Signal::Walked(Some(files))) => Gathered { files: files as nat, ..data },
        (Phase::Diff, Signal::Diff(Some(diff))) => Gathered {
            changed: diff.changed_files as nat,
            stale: diff.stale,
            ..data
        },
        (Phase::Populate, Signal::BatchFailed) => Gathered {
            failures: data.failures || embeds(c),
            ..data
        },
        _ => data,
    }
}

spec fn counts_agree(c: RunControl, data: Gathered) -> bool {
    &&& decided(c.phase) ==> {
        &&& c.total_files == data.files
        &&& c.selected_files == if c.full_reindex {
            data.files
        } else {
            data.changed
        }
        &&& c.stale == (!c.full_reindex && data.stale)
    }
    &&& c.phase == Phase::Manifest || c.phase == Phase::Diff || c.phase == Phase::CollectionCheck
        || c.phase == Phase::RowsUpToDate ==> c.total_files == data.files && !c.full_reindex
    &&& c.phase == Phase::RecordUpToDate || c.phase == Phase::Finished(Outcome::UpToDate) ==>
        c.total_files == data.files
    &&& c.phase == Phase::CollectionCheck ==> c.diff is Some && c.diff->0.changed_files
        == data.changed && c.diff->0.stale == data.stale
    &&& c.phase == Phase::LexicalGate || c.phase == Phase::CollectionGate || c.phase
        == Phase::RecordGate || c.phase == Phase::BackendGate || c.phase == Phase::Walk ==>
        !c.full_reindex
    &&& c.batch_failed == data.failures
}

proof fn lemma_gate_counts(c: RunControl, data: Gathered, signal: Signal)
    requires
        counts_agree(c, data),
        ({
            match c.phase {
                Phase::LexicalGate | Phase::CollectionGate | Phase::RecordGate | Phase::BackendGate => true,
                _ => false,
            }
        }),
    ensures
        counts_agree(gate_step(c, signal).0, gathers_more(c, data, signal)),
{
}

proof fn lemma_plan_counts(c: RunControl, data: Gathered, signal: Signal)
    requires
        counts_agree(c, data),
        ({
            match c.phase {
                Phase::Walk | Phase::Manifest | Phase::Diff | Phase::CollectionCheck | Phase::RowsUpToDate | Phase::RecordUpToDate => true,
                _ => false,
            }
        }),
    ensures
        counts_agree(plan_step(c, signal).0, gathers_more(c, data, signal)),
{
}

proof fn lemma_prepare_counts(c: RunControl, data: Gathered, signal: Signal)
    requires
        counts_agree(c, data),
        ({
            match c.phase {
                Phase::FindOld | Phase::DropOld | Phase::FindCurrent | Phase::Create | Phase::PrepareLexical | Phase::DeleteVectors => true,
                _ => false,
            }
        }),
    ensures
        counts_agree(prepare_step(c, signal).0, gathers_more(c, data, signal)),
{
}

proof fn lemma_unread_counts(c: RunControl, data: Gathered, signal: Signal)
    requires
        counts_agree(c, data),
        ({
            match c.phase {
                Phase::ManifestOnly | Phase::RowsOnly | Phase::RecordOnly => true,
                _ => false,
            }
        }),
    ensures
        counts_agree(unread_step(c, signal).0, gathers_more(c, data, signal)),
{
}

proof fn lemma_fill_counts(c: RunControl, data: Gathered, signal: Signal)
    requires
        counts_agree(c, data),
        ({
            match c.phase {
                Phase::Split | Phase::Populate | Phase::RowsAfter | Phase::ManifestAfter | Phase::RecordAfter => true,
                _ => false,
            }
        }),
    ensures
        counts_agree(fill_step(c, signal).0, gathers_more(c, data, signal)),
{
}

proof fn lemma_counts(c: RunControl, data: Gathered, signal: Signal)
    requires
        counts_agree(c, data),
    ensures
        counts_agree(step(c, signal).0, gathers_more(c, data, signal)),
{
    match c.phase {
        Phase::LexicalGate | Phase::CollectionGate | Phase::RecordGate | Phase::BackendGate => {
            lemma_gate_counts(c, data, signal);
        },
        Phase::Walk | Phase::Manifest | Phase::Diff | Phase::CollectionCheck | Phase::RowsUpToDate | Phase::RecordUpToDate => {
            lemma_plan_counts(c, data, signal);
        },
        Phase::FindOld | Phase::DropOld | Phase::FindCurrent | Phase::Create | Phase::PrepareLexical | Phase::DeleteVectors => {
            lemma_prepare_counts(c, data, signal);
        },
        Phase::ManifestOnly | Phase::RowsOnly | Phase::RecordOnly => {
            lemma_unread_counts(c, data, signal);
        },
        Phase::Split | Phase::Populate | Phase::RowsAfter | Phase::ManifestAfter | Phase::RecordAfter => {
            lemma_fill_counts(c, data, signal);
        },
        Phase::Finished(_) => {},
    }
}

proof fn lemma_changed_files_len(root: Seq<u8>, files: Seq<Seq<u8>>, changed: Seq<Seq<char>>)
    ensures
        changed_files(root, files, changed).len() <= files.len(),
    decreases files.len(),
{
    if files.len() > 0 {
        lemma_changed_files_len(root, files.drop_last(), changed);
    }
}

proof fn lemma_data_agrees(run: RunView, event: Event)
    requires
        counts_agree(run.control, gathered(run)),
        run.files.len() <= usize::MAX,
        event matches Event::Walked(Ok(files)) ==> files@.len() <= usize::MAX,
    ensures
        counts_agree(run_step(run, event).control, gathered(run_step(run, event))),
        run_step(run, event).files.len() <= usize::MAX,
{
    if let Event::Compared(Ok(diff)) = event {
        lemma_changed_files_len(run.path, run.files, views(diff.added@) + views(diff.modified@));
    }
    let signal = signal_of(run, event);
    lemma_counts(run.control, gathered(run), signal);
    let after_it = gathered(gathers(run, event));
    assert(after_it == gathers_more(run.control, gathered(run), signal));
}

/// The counts that a run goes by are those of its data: once it is decided what
/// to read, it is as many files as the run says, stale entries are removed
/// exactly where there are some, and batches count as failed exactly where one
/// did. So a run that indexed reports as many files as it read.
pub proof fn law_counts_are_those_of_the_data(
    mode: Mode,
    state: IndexerState,
    location: Location,
    previous: Option<IndexStatus>,
    events: Seq<Event>,
)
    requires
        forall|i: int|
            0 <= i < events.len() ==> (#[trigger] events[i] matches Event::Walked(Ok(files))
                ==> files@.len() <= usize::MAX),
    ensures
        ({
            let end = run_after(begun(mode, state, location, previous), events);
            &&& end.control.phase == Phase::Finished(Outcome::Indexed) || end.control.phase
                == Phase::Finished(Outcome::NothingToRead) || end.control.phase == Phase::Split
                || end.control.phase == Phase::Populate ==> end.control.selected_files == to_read(
                end,
            ).len() && end.control.total_files == end.files.len()
            &&& end.control.phase == Phase::Finished(Outcome::UpToDate) ==> end.control.total_files
                == end.files.len()
            &&& end.control.phase == Phase::PrepareLexical || end.control.phase
                == Phase::DeleteVectors ==> end.control.stale == (to_remove(end).len() > 0)
            &&& end.control.batch_failed == (end.batch_failures.len() > 0)
        }),
{
    lemma_run_data_agrees(mode, state, location, previous, events);
}

proof fn lemma_run_data_agrees(
    mode: Mode,
    state: IndexerState,
    location: Location,
    previous: Option<IndexStatus>,
    events: Seq<Event>,
)
    requires
        forall|i: int|
            0 <= i < events.len() ==> (#[trigger] events[i] matches Event::Walked(Ok(files))
                ==> files@.len() <= usize::MAX),
    ensures
        ({
            let end = run_after(begun(mode, state, location, previous), events);
            counts_agree(end.control, gathered(end)) && end.files.len() <= usize::MAX
        }),
    decreases events.len(),
{
    if events.len() > 0 {
        let earlier = events.drop_last();
        assert forall|i: int| 0 <= i < earlier.len() implies (
        #[trigger] earlier[i] matches Event::Walked(Ok(files)) ==> files@.len() <= usize::MAX) by {
            assert(earlier[i] == events[i]);
        }
        lemma_run_data_agrees(mode, state, location, previous, earlier);
        assert(events.last() == events[events.len() - 1]);
        lemma_data_agrees(
            run_after(begun(mode, state, location, previous), earlier),
            events.last(),
        );
    }
}

/// Where there is no manifest, an update is refused, and any other run that
/// succeeds has read every file that the walk found.
pub proof fn law_run_without_manifest_reads_what_was_walked(
    mode: Mode,
    state: IndexerState,
    location: Location,
    previous: Option<IndexStatus>,
    events: Seq<Event>,
)
    requires
        answered(
            started(mode, state.embeddings_enabled, previous),
            signals_of(begun(mode, state, location, previous), events),
            Ask::LoadManifest,
            Signal::Manifest(ManifestFact::Absent),
        ),
        forall|i: int|
            0 <= i < events.len() ==> (#[trigger] events[i] matches Event::Walked(Ok(files))
                ==> files@.len() <= usize::MAX),
    ensures
        ({
            let end = run_after(begun(mode, state, location, previous), events);
            &&& mode == Mode::Update ==> refused(end.control)
            &&& succeeded(end.control) ==> to_read(end) == end.files && end.control.selected_files
                == end.files.len() && end.control.phase != Phase::Finished(Outcome::UpToDate)
        }),
{
    let run = begun(mode, state, location, previous);
    let signals = signals_of(run, events);
    law_run_decides_by_its_signals(run, events);
    law_run_without_manifest_reads_every_file(mode, state.embeddings_enabled, previous, signals);
    lemma_run_data_agrees(mode, state, location, previous, events);
}

/// A run after a completed one, over a codebase that has not changed, reports
/// that it is up to date, with the vectors recorded, and leaves the record as it
/// is.
pub proof fn law_unchanged_codebase_is_reported_up_to_date(
    first: Mode,
    second: Mode,
    state: IndexerState,
    location: Location,
    previous: Option<IndexStatus>,
    signals: Seq<Signal>,
    events: Seq<Event>,
    diff: DiffFact,
    rows: Option<u64>,
    duration_ms: u64,
)
    requires
        succeeded(after(started(first, state.embeddings_enabled, previous), signals)),
        second != Mode::Rebuild,
        diff.empty,
        rows is None || rows == Some(0u64),
        ({
            let record = record_after(
                started(first, state.embeddings_enabled, previous),
                first_record(),
                signals,
            );
            signals_of(begun(second, state, location, record), events) == unchanged(
                second,
                state.embeddings_enabled,
                record->0.total_files,
                record->0.vectors_inserted,
                diff,
                rows,
            )
        }),
    ensures
        ({
            let record = record_after(
                started(first, state.embeddings_enabled, previous),
                first_record(),
                signals,
            );
            let run = begun(second, state, location, record);
            &&& report(run_after(run, events), duration_ms) == Some(
                Ok::<ResultView, ErrorView>(
                    ResultView {
                        files_processed: 0,
                        chunks_created: 0,
                        embeddings_generated: 0,
                        vectors_inserted: record->0.vectors_inserted,
                        duration_ms,
                        warnings: seq!["already up to date"@],
                        lexical_only: !state.embeddings_enabled,
                    },
                ),
            )
            &&& record_after(run.control, first_record(), signals_of(run, events)) == record
        }),
{
    let c = started(first, state.embeddings_enabled, previous);
    let record = record_after(c, first_record(), signals);
    let run = begun(second, state, location, record);
    law_run_decides_by_its_signals(run, events);
    law_second_run_is_up_to_date(
        first,
        second,
        state.embeddings_enabled,
        previous,
        signals,
        diff,
        rows,
    );
    law_run_keeps_its_mode(second, state.embeddings_enabled, record, signals_of(run, events));
}

/// A run whose batches are the pieces of its chunks counts no more embeddings
/// than it has chunks, whatever the embedder answers.
pub proof fn law_run_counts_no_more_embeddings_than_chunks(
    mode: Mode,
    embeddings_enabled: bool,
    previous: Option<IndexStatus>,
    signals: Seq<Signal>,
    chunks: Seq<CodeChunk>,
    answers: Seq<Seq<Answer>>,
)
    requires
        chunks.len() <= usize::MAX,
        stored_embeddings(started(mode, embeddings_enabled, previous), signals) == embeddings_of(
            pieces(chunks, EMBEDDING_BATCH_SIZE as int),
            answers,
        ),
        stored_vectors(started(mode, embeddings_enabled, previous), signals) <= usize::MAX,
    ensures
        after(started(mode, embeddings_enabled, previous), signals).embeddings <= chunks.len(),
{
    law_embeddings_do_not_outnumber_chunks(chunks, EMBEDDING_BATCH_SIZE as int, answers);
    law_counts_sum_up_the_batches(mode, embeddings_enabled, previous, signals);
}

} // verus!
