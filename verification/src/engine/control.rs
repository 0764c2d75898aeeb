//! The decisions of an indexing run: what it asks of its host next, given all
//! that the host reported so far, and what becomes of the index status.

use crate::engine::status::{
    capped, checked_vector_row_count, completed, completed_vector_count, completed_vectors,
    failed, failure_evidence, refuse_before_mutation, restoring, split_progress,
    update_status_completed_counts, update_status_failed, Persist,
};
use crate::types::{nothing_counted, IndexState, IndexStatus};
use vstd::prelude::*;

verus! {

/// What a run is meant to do.
#[derive(Debug, Clone, Copy, PartialEq, Eq, Structural)]
pub enum Mode {
    /// Build the index, or bring it up to date where its manifest allows that.
    Index,
    /// Build the index from scratch.
    Rebuild,
    /// Bring an existing index up to date, and never rebuild it.
    Update,
}

/// Why a run was refused before it changed anything.
#[derive(Debug, Clone, Copy, PartialEq, Eq, Structural)]
pub enum Refusal {
    LexicalIndexMissing,
    CollectionUnknown,
    RecordUnreadable,
    SemanticIndexExists,
    BackendDiffers,
    WalkFailed,
    ManifestUnreadable,
    ManifestMissing,
    ManifestIncompatible,
    DiffFailed,
    CollectionLookupFailed,
    CollectionMissing,
}

/// Why a run failed after it may have changed something.
#[derive(Debug, Clone, Copy, PartialEq, Eq, Structural)]
pub enum Failure {
    PrepareVectors,
    PrepareLexical,
    DeleteVectors,
    WriteManifest,
    RecordBackend,
    UpdateLexical,
    BatchesFailed,
    NoEmbeddings,
    NoVectors,
}

/// How a run ended.
#[derive(Debug, Clone, Copy, PartialEq, Eq, Structural)]
pub enum Outcome {
    Refused(Refusal),
    Failed(Failure),
    /// Nothing had changed since the last run.
    UpToDate,
    /// There was no file to read, only stale entries to remove.
    NothingToRead,
    Indexed,
}

#[derive(Debug, Clone, Copy, PartialEq, Eq, Structural)]
pub enum Phase {
    LexicalGate,
    CollectionGate,
    RecordGate,
    BackendGate,
    Walk,
    Manifest,
    Diff,
    CollectionCheck,
    RowsUpToDate,
    RecordUpToDate,
    FindOld,
    DropOld,
    FindCurrent,
    Create,
    PrepareLexical,
    DeleteVectors,
    ManifestOnly,
    RowsOnly,
    RecordOnly,
    Split,
    Populate,
    RowsAfter,
    ManifestAfter,
    RecordAfter,
    Finished(Outcome),
}

/// What a run asks of its host.
#[derive(Debug, Clone, Copy, PartialEq, Eq, Structural)]
pub enum Ask {
    /// Are there a manifest and a lexical index?
    LookForIndex,
    /// Is there a vector collection?
    HasCollection,
    /// Which backend does the provenance record name?
    ReadBackendRecord,
    /// Which files are there?
    WalkFiles,
    /// Is there a manifest, and was it made with the same settings?
    LoadManifest,
    /// What changed since the manifest was written?
    DiffManifest,
    /// How many rows does the vector collection have?
    CountRows,
    DropCollection,
    CreateCollection,
    /// Clear the lexical index, or delete the stale files from it.
    PrepareLexical { clear: bool },
    /// Delete the stale files' vectors.
    DeleteStaleVectors,
    /// Write the manifest, with the fingerprints of the comparison where there are
    /// some.
    WriteManifest { cached_fingerprints: bool },
    /// Record the vector backend in use.
    WriteBackendRecord,
    /// Split the selected files into chunks.
    SplitFiles,
    /// Put the chunks into the lexical index, and embed and store them.
    Populate { embed: bool },
    /// The run has ended.
    Nothing,
}

/// What a provenance record says of the backend in use.
#[derive(Debug, Clone, Copy, PartialEq, Eq, Structural)]
pub enum RecordFact {
    Unreadable,
    Absent,
    Same,
    Differs,
}

#[derive(Debug, Clone, Copy, PartialEq, Eq, Structural)]
pub enum ManifestFact {
    Unreadable,
    Absent,
    Incompatible,
    Compatible,
}

/// What a comparison with the manifest found.
#[derive(Debug, Clone, Copy, PartialEq, Eq, Structural)]
pub struct DiffFact {
    /// Nothing was added, modified or deleted.
    pub empty: bool,
    /// How many of the files were added or modified.
    pub changed_files: usize,
    /// Something was modified or deleted.
    pub stale: bool,
}

/// What the host reports.
#[derive(Debug, Clone, Copy, PartialEq, Eq, Structural)]
pub enum Signal {
    /// Whether a manifest and a lexical index exist; nothing where that could not
    /// be found out.
    Looked { manifest: Option<bool>, lexical: Option<bool> },
    /// Whether the collection exists; nothing where that could not be found out.
    Collection(Option<bool>),
    Record(RecordFact),
    /// How many files there are; nothing where the walk failed.
    Walked(Option<usize>),
    Manifest(ManifestFact),
    /// Nothing where the comparison failed.
    Diff(Option<DiffFact>),
    /// The rows of the collection; nothing where they could not be counted.
    Rows(Option<u64>),
    /// Whether what was asked for succeeded.
    Done(bool),
    /// So many files are split by now.
    FileSplit(usize),
    /// All files are split, into so many chunks.
    Chunked(usize),
    /// A batch of chunks was embedded and stored.
    BatchStored { embedded: usize, inserted: usize },
    BatchFailed,
    /// No batch is left, and the lexical index took the chunks or did not.
    Populated { lexical_stored: bool },
}

/// The state of a run.
#[derive(Debug, Clone, Copy, PartialEq, Eq)]
pub struct RunControl {
    pub mode: Mode,
    pub embeddings_enabled: bool,
    /// The record on disk from before the run.
    pub previous: Option<IndexStatus>,
    /// The status as the run's host shows it.
    pub status: IndexStatus,
    pub phase: Phase,
    pub has_semantic: bool,
    pub total_files: usize,
    /// The run rebuilds the index.
    pub full_reindex: bool,
    /// The comparison with the manifest, once there was one.
    pub diff: Option<DiffFact>,
    /// How many files are to be read.
    pub selected_files: usize,
    /// Some entries of the index are stale.
    pub stale: bool,
    pub chunks: usize,
    pub embeddings: usize,
    pub vectors: usize,
    pub batch_failed: bool,
}

/// A run at its start.
pub open spec fn started(
    mode: Mode,
    embeddings_enabled: bool,
    previous: Option<IndexStatus>,
) -> RunControl {
    RunControl {
        mode,
        embeddings_enabled,
        previous,
        status: nothing_counted(IndexState::Indexing),
        phase: if mode == Mode::Update {
            Phase::LexicalGate
        } else {
            semantic_gate(embeddings_enabled)
        },
        has_semantic: false,
        total_files: 0,
        full_reindex: false,
        diff: None,
        selected_files: 0,
        stale: false,
        chunks: 0,
        embeddings: 0,
        vectors: 0,
        batch_failed: false,
    }
}

/// Where a run makes sure that it may touch the semantic index, or pass it by.
pub open spec fn semantic_gate(embeddings_enabled: bool) -> Phase {
    if embeddings_enabled {
        Phase::BackendGate
    } else {
        Phase::CollectionGate
    }
}

/// The record from before the run, or that of an index never built.
pub open spec fn before(c: RunControl) -> IndexStatus {
    match c.previous {
        Some(status) => status,
        None => nothing_counted(IndexState::Idle),
    }
}

/// What a run asks in a given state.
pub open spec fn ask_of(c: RunControl) -> Ask {
    match c.phase {
        Phase::LexicalGate => Ask::LookForIndex,
        Phase::CollectionGate => Ask::HasCollection,
        Phase::RecordGate => Ask::ReadBackendRecord,
        Phase::BackendGate => Ask::ReadBackendRecord,
        Phase::Walk => Ask::WalkFiles,
        Phase::Manifest => Ask::LoadManifest,
        Phase::Diff => Ask::DiffManifest,
        Phase::CollectionCheck => Ask::HasCollection,
        Phase::RowsUpToDate => Ask::CountRows,
        Phase::RecordUpToDate => Ask::WriteBackendRecord,
        Phase::FindOld => Ask::HasCollection,
        Phase::DropOld => Ask::DropCollection,
        Phase::FindCurrent => Ask::HasCollection,
        Phase::Create => Ask::CreateCollection,
        Phase::PrepareLexical => Ask::PrepareLexical { clear: c.full_reindex },
        Phase::DeleteVectors => Ask::DeleteStaleVectors,
        Phase::ManifestOnly => Ask::WriteManifest { cached_fingerprints: c.diff is Some },
        Phase::RowsOnly => Ask::CountRows,
        Phase::RecordOnly => Ask::WriteBackendRecord,
        Phase::Split => Ask::SplitFiles,
        Phase::Populate => Ask::Populate { embed: embeds(c) },
        Phase::RowsAfter => Ask::CountRows,
        Phase::ManifestAfter => Ask::WriteManifest { cached_fingerprints: c.diff is Some },
        Phase::RecordAfter => Ask::WriteBackendRecord,
        Phase::Finished(_) => Ask::Nothing,
    }
}

/// There are chunks to embed, and an embedder.
pub open spec fn embeds(c: RunControl) -> bool {
    c.embeddings_enabled && c.chunks > 0
}

/// The next state, and what becomes of the status record.
pub type Next = (RunControl, Persist);

pub open spec fn goes(c: RunControl, phase: Phase) -> Next {
    (RunControl { phase, ..c }, Persist::Keep)
}

pub open spec fn refuses(c: RunControl, refusal: Refusal) -> Next {
    (
        RunControl {
            status: failed(c.status, None),
            phase: Phase::Finished(Outcome::Refused(refusal)),
            ..c
        },
        restoring(c.previous),
    )
}

/// The status from before the run, unless the run rebuilds the index.
pub open spec fn evidence(c: RunControl) -> Option<IndexStatus> {
    if c.full_reindex {
        None
    } else {
        c.previous
    }
}

pub open spec fn fails(c: RunControl, failure: Failure) -> Next {
    let status = failed(c.status, evidence(c));
    (
        RunControl { status, phase: Phase::Finished(Outcome::Failed(failure)), ..c },
        Persist::Write(status),
    )
}

/// On success the run goes on in `phase`.
pub open spec fn goes_if(c: RunControl, ok: bool, phase: Phase, failure: Failure) -> Next {
    if ok {
        goes(c, phase)
    } else {
        fails(c, failure)
    }
}

/// The run completes over all files, with the given counts.
pub open spec fn completes(
    c: RunControl,
    chunks: usize,
    embeddings: usize,
    vectors: usize,
    phase: Phase,
) -> Next {
    let status = completed(
        IndexStatus { total_files: c.total_files, ..c.status },
        chunks,
        embeddings,
        vectors,
    );
    (RunControl { status, vectors, phase, ..c }, Persist::Write(status))
}

/// The first step that changes the index.
pub open spec fn mutates(c: RunControl) -> Next {
    goes(
        c,
        if !c.embeddings_enabled {
            Phase::PrepareLexical
        } else if c.full_reindex {
            Phase::FindOld
        } else {
            Phase::FindCurrent
        },
    )
}

/// The run reads all files into an empty index, if its mode allows that.
pub open spec fn rebuilds(c: RunControl, refusal: Refusal) -> Next {
    if c.mode == Mode::Update {
        refuses(c, refusal)
    } else {
        mutates(
            RunControl { full_reindex: true, selected_files: c.total_files, stale: false, ..c },
        )
    }
}

/// The run keeps the index as it is, with `vectors` vectors in it.
pub open spec fn keeps(c: RunControl, vectors: usize) -> Next {
    completes(
        c,
        before(c).total_chunks,
        before(c).embeddings_generated,
        vectors,
        if c.embeddings_enabled {
            Phase::RecordUpToDate
        } else {
            Phase::Finished(Outcome::UpToDate)
        },
    )
}

/// The run goes by what changed since the manifest was written.
pub open spec fn follows_diff(c: RunControl, diff: DiffFact) -> Next {
    if !diff.empty {
        mutates(
            RunControl {
                diff: Some(diff),
                selected_files: diff.changed_files,
                stale: diff.stale,
                ..c
            },
        )
    } else if !c.embeddings_enabled {
        keeps(RunControl { diff: Some(diff), ..c }, 0)
    } else {
        match completed_vectors(before(c)) {
            Some(vectors) => keeps(RunControl { diff: Some(diff), ..c }, vectors),
            None => goes(RunControl { diff: Some(diff), ..c }, Phase::RowsUpToDate),
        }
    }
}

/// Stale entries are gone: the run reads the selected files, if there are any.
pub open spec fn reads(c: RunControl) -> Next {
    goes(
        RunControl {
            status: IndexStatus { total_files: c.selected_files, ..c.status },
            ..c
        },
        if c.selected_files == 0 {
            Phase::ManifestOnly
        } else {
            Phase::Split
        },
    )
}

/// The run ends after it only removed stale entries.
pub open spec fn finishes_unread(c: RunControl, vectors: usize) -> Next {
    completes(c, vectors, vectors, vectors, Phase::Finished(Outcome::NothingToRead))
}

/// The run ends after it read files. An incremental run does not know the counts
/// of the whole index, and reports what it stored.
pub open spec fn finishes(c: RunControl) -> Next {
    if c.embeddings_enabled && !c.full_reindex {
        completes(c, c.vectors, c.vectors, c.vectors, Phase::Finished(Outcome::Indexed))
    } else {
        completes(c, c.chunks, c.embeddings, c.vectors, Phase::Finished(Outcome::Indexed))
    }
}

/// All batches are through, and the lexical index took the chunks.
pub open spec fn settles(c: RunControl) -> Next {
    if !c.embeddings_enabled {
        goes(c, Phase::ManifestAfter)
    } else if c.chunks > 0 && c.batch_failed {
        fails(c, Failure::BatchesFailed)
    } else if c.chunks > 0 && c.embeddings == 0 {
        fails(c, Failure::NoEmbeddings)
    } else if c.chunks > 0 && c.vectors == 0 {
        fails(c, Failure::NoVectors)
    } else {
        goes(c, Phase::RowsAfter)
    }
}

/// Whether the run may go on at all.
pub open spec fn gate_step(c: RunControl, signal: Signal) -> Next {
    match (c.phase, signal) {
        (Phase::LexicalGate, Signal::Looked { manifest, lexical }) => if manifest == Some(true)
            && lexical != Some(true) {
            refuses(c, Refusal::LexicalIndexMissing)
        } else {
            goes(c, semantic_gate(c.embeddings_enabled))
        },
        (Phase::CollectionGate, Signal::Collection(found)) => match found {
            Some(has) => goes(RunControl { has_semantic: has, ..c }, Phase::RecordGate),
            None => refuses(c, Refusal::CollectionUnknown),
        },
        (Phase::RecordGate, Signal::Record(fact)) => match fact {
            RecordFact::Unreadable => refuses(c, Refusal::RecordUnreadable),
            RecordFact::Absent => if c.has_semantic || before(c).vectors_inserted > 0 {
                refuses(c, Refusal::SemanticIndexExists)
            } else {
                goes(c, Phase::Walk)
            },
            _ => refuses(c, Refusal::SemanticIndexExists),
        },
        (Phase::BackendGate, Signal::Record(fact)) => match fact {
            RecordFact::Unreadable => refuses(c, Refusal::RecordUnreadable),
            RecordFact::Differs => refuses(c, Refusal::BackendDiffers),
            _ => goes(c, Phase::Walk),
        },
        _ => (c, Persist::Keep),
    }
}

/// What is to be done.
pub open spec fn plan_step(c: RunControl, signal: Signal) -> Next {
    match (c.phase, signal) {
        (Phase::Walk, Signal::Walked(found)) => match found {
            Some(files) => goes(RunControl { total_files: files, ..c }, Phase::Manifest),
            None => refuses(c, Refusal::WalkFailed),
        },
        (Phase::Manifest, Signal::Manifest(fact)) => if fact == ManifestFact::Unreadable {
            refuses(c, Refusal::ManifestUnreadable)
        } else if c.mode == Mode::Rebuild || fact == ManifestFact::Absent {
            rebuilds(c, Refusal::ManifestMissing)
        } else if fact == ManifestFact::Incompatible {
            rebuilds(c, Refusal::ManifestIncompatible)
        } else {
            goes(c, Phase::Diff)
        },
        (Phase::Diff, Signal::Diff(found)) => match found {
            Some(diff) => if c.embeddings_enabled {
                goes(RunControl { diff: Some(diff), ..c }, Phase::CollectionCheck)
            } else {
                follows_diff(c, diff)
            },
            None => refuses(c, Refusal::DiffFailed),
        },
        (Phase::CollectionCheck, Signal::Collection(found)) => match (found, c.diff) {
            (Some(true), Some(diff)) => follows_diff(c, diff),
            (Some(_), _) => rebuilds(c, Refusal::CollectionMissing),
            (None, _) => refuses(c, Refusal::CollectionLookupFailed),
        },
        (Phase::RowsUpToDate, Signal::Rows(rows)) => keeps(
            c,
            match rows {
                Some(count) => capped(count),
                None => before(c).vectors_inserted,
            },
        ),
        (Phase::RecordUpToDate, Signal::Done(ok)) => goes_if(
            c,
            ok,
            Phase::Finished(Outcome::UpToDate),
            Failure::RecordBackend,
        ),
        _ => (c, Persist::Keep),
    }
}

/// The index is made ready for what is to be read.
pub open spec fn prepare_step(c: RunControl, signal: Signal) -> Next {
    match (c.phase, signal) {
        (Phase::FindOld, Signal::Collection(found)) => match found {
            Some(true) => goes(c, Phase::DropOld),
            Some(false) => goes(c, Phase::FindCurrent),
            None => fails(c, Failure::PrepareVectors),
        },
        (Phase::DropOld, Signal::Done(ok)) => goes_if(
            c,
            ok,
            Phase::FindCurrent,
            Failure::PrepareVectors,
        ),
        (Phase::FindCurrent, Signal::Collection(found)) => match found {
            Some(true) => goes(c, Phase::PrepareLexical),
            Some(false) => goes(c, Phase::Create),
            None => fails(c, Failure::PrepareVectors),
        },
        (Phase::Create, Signal::Done(ok)) => goes_if(
            c,
            ok,
            Phase::PrepareLexical,
            Failure::PrepareVectors,
        ),
        (Phase::PrepareLexical, Signal::Done(ok)) => if !ok {
            fails(c, Failure::PrepareLexical)
        } else if c.stale && c.embeddings_enabled {
            goes(c, Phase::DeleteVectors)
        } else {
            reads(c)
        },
        (Phase::DeleteVectors, Signal::Done(ok)) => if ok {
            reads(c)
        } else {
            fails(c, Failure::DeleteVectors)
        },
        _ => (c, Persist::Keep),
    }
}

/// There is nothing to read.
pub open spec fn unread_step(c: RunControl, signal: Signal) -> Next {
    match (c.phase, signal) {
        (Phase::ManifestOnly, Signal::Done(ok)) => if !ok {
            fails(c, Failure::WriteManifest)
        } else if c.embeddings_enabled {
            goes(c, Phase::RowsOnly)
        } else {
            finishes_unread(c, 0)
        },
        (Phase::RowsOnly, Signal::Rows(rows)) => goes(
            RunControl {
                vectors: match rows {
                    Some(count) => capped(count),
                    None => 0,
                },
                ..c
            },
            Phase::RecordOnly,
        ),
        (Phase::RecordOnly, Signal::Done(ok)) => if ok {
            finishes_unread(c, c.vectors)
        } else {
            fails(c, Failure::RecordBackend)
        },
        _ => (c, Persist::Keep),
    }
}

/// The selected files are read.
pub open spec fn fill_step(c: RunControl, signal: Signal) -> Next {
    match (c.phase, signal) {
        (Phase::Split, Signal::FileSplit(count)) => if count % 10 == 0 {
            let status = IndexStatus { processed_files: count, ..c.status };
            (RunControl { status, ..c }, Persist::Write(status))
        } else {
            (c, Persist::Keep)
        },
        (Phase::Split, Signal::Chunked(chunks)) => {
            let status = IndexStatus {
                processed_files: c.selected_files,
                total_chunks: chunks,
                ..c.status
            };
            (
                RunControl { status, chunks, phase: Phase::Populate, ..c },
                Persist::Write(status),
            )
        },
        (Phase::Populate, Signal::BatchStored { embedded, inserted }) => if embeds(c) {
            let embeddings = (c.embeddings + embedded) as usize;
            let vectors = (c.vectors + inserted) as usize;
            let status = IndexStatus {
                embeddings_generated: embeddings,
                vectors_inserted: vectors,
                ..c.status
            };
            (RunControl { status, embeddings, vectors, ..c }, Persist::Write(status))
        } else {
            (c, Persist::Keep)
        },
        (Phase::Populate, Signal::BatchFailed) => if embeds(c) {
            (RunControl { batch_failed: true, ..c }, Persist::Keep)
        } else {
            (c, Persist::Keep)
        },
        (Phase::Populate, Signal::Populated { lexical_stored }) => if lexical_stored {
            settles(c)
        } else {
            fails(c, Failure::UpdateLexical)
        },
        (Phase::RowsAfter, Signal::Rows(_)) => goes(c, Phase::ManifestAfter),
        (Phase::ManifestAfter, Signal::Done(ok)) => if !ok {
            fails(c, Failure::WriteManifest)
        } else if c.embeddings_enabled {
            goes(c, Phase::RecordAfter)
        } else {
            finishes(c)
        },
        (Phase::RecordAfter, Signal::Done(ok)) => if ok {
            finishes(c)
        } else {
            fails(c, Failure::RecordBackend)
        },
        _ => (c, Persist::Keep),
    }
}

/// What follows a report. One that does not answer what was asked changes
/// nothing.
pub open spec fn step(c: RunControl, signal: Signal) -> Next {
    match c.phase {
        Phase::LexicalGate | Phase::CollectionGate | Phase::RecordGate | Phase::BackendGate => gate_step(c, signal),
        Phase::Walk | Phase::Manifest | Phase::Diff | Phase::CollectionCheck | Phase::RowsUpToDate | Phase::RecordUpToDate => plan_step(c, signal),
        Phase::FindOld | Phase::DropOld | Phase::FindCurrent | Phase::Create | Phase::PrepareLexical | Phase::DeleteVectors => prepare_step(c, signal),
        Phase::ManifestOnly | Phase::RowsOnly | Phase::RecordOnly => unread_step(c, signal),
        Phase::Split | Phase::Populate | Phase::RowsAfter | Phase::ManifestAfter | Phase::RecordAfter => fill_step(c, signal),
        Phase::Finished(_) => (c, Persist::Keep),
    }
}

/// Counting the batch leaves the counters within their range.
pub open spec fn countable(c: RunControl, signal: Signal) -> bool {
    match signal {
        Signal::BatchStored { embedded, inserted } => c.embeddings + embedded <= usize::MAX
            && c.vectors + inserted <= usize::MAX,
        _ => true,
    }
}

impl RunControl {
    /// Starts a run, unless one is under way that this run may not take over. The
    /// record on disk then says that indexing is under way.
    pub fn start(
        mode: Mode,
        embeddings_enabled: bool,
        current: IndexStatus,
        previous: Option<IndexStatus>,
    ) -> (r: Option<(RunControl, Persist)>)
        ensures
            r == if current.status == IndexState::Indexing && mode != Mode::Rebuild {
                None
            } else {
                Some(
                    (
                        started(mode, embeddings_enabled, previous),
                        Persist::Write(nothing_counted(IndexState::Indexing)),
                    ),
                )
            },
    {
        if current.status == IndexState::Indexing && mode != Mode::Rebuild {
            return None;
        }
        let status = IndexStatus::of(IndexState::Indexing);
        let phase = if mode == Mode::Update {
            Phase::LexicalGate
        } else if embeddings_enabled {
            Phase::BackendGate
        } else {
            Phase::CollectionGate
        };
        Some(
            (
                RunControl {
                    mode,
                    embeddings_enabled,
                    previous,
                    status,
                    phase,
                    has_semantic: false,
                    total_files: 0,
                    full_reindex: false,
                    diff: None,
                    selected_files: 0,
                    stale: false,
                    chunks: 0,
                    embeddings: 0,
                    vectors: 0,
                    batch_failed: false,
                },
                Persist::Write(status),
            ),
        )
    }

    /// What the run asks.
    pub fn ask(&self) -> (r: Ask)
        ensures
            r == ask_of(*self),
    {
        match self.phase {
            Phase::LexicalGate => Ask::LookForIndex,
            Phase::CollectionGate | Phase::CollectionCheck | Phase::FindOld | Phase::FindCurrent => {
                Ask::HasCollection
            },
            Phase::RecordGate | Phase::BackendGate => Ask::ReadBackendRecord,
            Phase::Walk => Ask::WalkFiles,
            Phase::Manifest => Ask::LoadManifest,
            Phase::Diff => Ask::DiffManifest,
            Phase::RowsUpToDate | Phase::RowsOnly | Phase::RowsAfter => Ask::CountRows,
            Phase::RecordUpToDate | Phase::RecordOnly | Phase::RecordAfter => {
                Ask::WriteBackendRecord
            },
            Phase::DropOld => Ask::DropCollection,
            Phase::Create => Ask::CreateCollection,
            Phase::PrepareLexical => Ask::PrepareLexical { clear: self.full_reindex },
            Phase::DeleteVectors => Ask::DeleteStaleVectors,
            Phase::ManifestOnly | Phase::ManifestAfter => {
                Ask::WriteManifest { cached_fingerprints: self.diff.is_some() }
            },
            Phase::Split => Ask::SplitFiles,
            Phase::Populate => {
                Ask::Populate { embed: self.embeddings_enabled && self.chunks > 0 }
            },
            Phase::Finished(_) => Ask::Nothing,
        }
    }

    fn go(&mut self, phase: Phase) -> (r: Persist)
        ensures
            (*final(self), r) == goes(*old(self), phase),
    {
        self.phase = phase;
        Persist::Keep
    }

    fn refuse(&mut self, refusal: Refusal) -> (r: Persist)
        ensures
            (*final(self), r) == refuses(*old(self), refusal),
    {
        let mut status = self.status;
        let persist = refuse_before_mutation(&mut status, self.previous);
        self.status = status;
        self.phase = Phase::Finished(Outcome::Refused(refusal));
        persist
    }

    fn fail(&mut self, failure: Failure) -> (r: Persist)
        ensures
            (*final(self), r) == fails(*old(self), failure),
    {
        let mut status = self.status;
        let persist = update_status_failed(
            &mut status,
            failure_evidence(self.full_reindex, self.previous),
        );
        self.status = status;
        self.phase = Phase::Finished(Outcome::Failed(failure));
        persist
    }

    fn go_if(&mut self, ok: bool, phase: Phase, failure: Failure) -> (r: Persist)
        ensures
            (*final(self), r) == goes_if(*old(self), ok, phase, failure),
    {
        if ok {
            self.go(phase)
        } else {
            self.fail(failure)
        }
    }

    fn complete(&mut self, chunks: usize, embeddings: usize, vectors: usize, phase: Phase) -> (r:
        Persist)
        ensures
            (*final(self), r) == completes(*old(self), chunks, embeddings, vectors, phase),
    {
        let mut status = self.status;
        status.total_files = self.total_files;
        let persist = update_status_completed_counts(&mut status, chunks, embeddings, vectors);
        self.status = status;
        self.vectors = vectors;
        self.phase = phase;
        persist
    }

    fn mutate(&mut self) -> (r: Persist)
        ensures
            (*final(self), r) == mutates(*old(self)),
    {
        if !self.embeddings_enabled {
            self.go(Phase::PrepareLexical)
        } else if self.full_reindex {
            self.go(Phase::FindOld)
        } else {
            self.go(Phase::FindCurrent)
        }
    }

    fn rebuild(&mut self, refusal: Refusal) -> (r: Persist)
        ensures
            (*final(self), r) == rebuilds(*old(self), refusal),
    {
        if self.mode == Mode::Update {
            return self.refuse(refusal);
        }
        self.full_reindex = true;
        self.selected_files = self.total_files;
        self.stale = false;
        self.mutate()
    }

    fn before(&self) -> (r: IndexStatus)
        ensures
            r == before(*self),
    {
        match self.previous {
            Some(status) => status,
            None => IndexStatus::default(),
        }
    }

    fn keep(&mut self, vectors: usize) -> (r: Persist)
        ensures
            (*final(self), r) == keeps(*old(self), vectors),
    {
        let before = self.before();
        let phase = if self.embeddings_enabled {
            Phase::RecordUpToDate
        } else {
            Phase::Finished(Outcome::UpToDate)
        };
        self.complete(before.total_chunks, before.embeddings_generated, vectors, phase)
    }

    fn follow_diff(&mut self, diff: DiffFact) -> (r: Persist)
        ensures
            (*final(self), r) == follows_diff(*old(self), diff),
    {
        self.diff = Some(diff);
        if !diff.empty {
            self.selected_files = diff.changed_files;
            self.stale = diff.stale;
            self.mutate()
        } else if !self.embeddings_enabled {
            self.keep(0)
        } else {
            match completed_vector_count(&self.before()) {
                Some(vectors) => self.keep(vectors),
                None => self.go(Phase::RowsUpToDate),
            }
        }
    }

    fn read(&mut self) -> (r: Persist)
        ensures
            (*final(self), r) == reads(*old(self)),
    {
        self.status.total_files = self.selected_files;
        if self.selected_files == 0 {
            self.go(Phase::ManifestOnly)
        } else {
            self.go(Phase::Split)
        }
    }

    fn finish_unread(&mut self, vectors: usize) -> (r: Persist)
        ensures
            (*final(self), r) == finishes_unread(*old(self), vectors),
    {
        self.complete(vectors, vectors, vectors, Phase::Finished(Outcome::NothingToRead))
    }

    fn finish(&mut self) -> (r: Persist)
        ensures
            (*final(self), r) == finishes(*old(self)),
    {
        let chunks: usize = self.chunks;
        let embeddings: usize = self.embeddings;
        let vectors: usize = self.vectors;
        if self.embeddings_enabled && !self.full_reindex {
            self.complete(vectors, vectors, vectors, Phase::Finished(Outcome::Indexed))
        } else {
            self.complete(chunks, embeddings, vectors, Phase::Finished(Outcome::Indexed))
        }
    }

    fn settle(&mut self) -> (r: Persist)
        ensures
            (*final(self), r) == settles(*old(self)),
    {
        if !self.embeddings_enabled {
            self.go(Phase::ManifestAfter)
        } else if self.chunks > 0 && self.batch_failed {
            self.fail(Failure::BatchesFailed)
        } else if self.chunks > 0 && self.embeddings == 0 {
            self.fail(Failure::NoEmbeddings)
        } else if self.chunks > 0 && self.vectors == 0 {
            self.fail(Failure::NoVectors)
        } else {
            self.go(Phase::RowsAfter)
        }
    }

    fn pass_gate(&mut self, signal: Signal) -> (r: Persist)
        ensures
            (*final(self), r) == gate_step(*old(self), signal),
    {
        match (self.phase, signal) {
            (Phase::LexicalGate, Signal::Looked { manifest, lexical }) => {
                if manifest == Some(true) && lexical != Some(true) {
                    self.refuse(Refusal::LexicalIndexMissing)
                } else if self.embeddings_enabled {
                    self.go(Phase::BackendGate)
                } else {
                    self.go(Phase::CollectionGate)
                }
            },
            (Phase::CollectionGate, Signal::Collection(found)) => match found {
                Some(has) => {
                    self.has_semantic = has;
                    self.go(Phase::RecordGate)
                },
                None => self.refuse(Refusal::CollectionUnknown),
            },
            (Phase::RecordGate, Signal::Record(fact)) => match fact {
                RecordFact::Unreadable => self.refuse(Refusal::RecordUnreadable),
                RecordFact::Absent => {
                    if self.has_semantic || self.before().vectors_inserted > 0 {
                        self.refuse(Refusal::SemanticIndexExists)
                    } else {
                        self.go(Phase::Walk)
                    }
                },
                _ => self.refuse(Refusal::SemanticIndexExists),
            },
            (Phase::BackendGate, Signal::Record(fact)) => match fact {
                RecordFact::Unreadable => self.refuse(Refusal::RecordUnreadable),
                RecordFact::Differs => self.refuse(Refusal::BackendDiffers),
                _ => self.go(Phase::Walk),
            },
            _ => Persist::Keep,
        }
    }

    fn plan(&mut self, signal: Signal) -> (r: Persist)
        ensures
            (*final(self), r) == plan_step(*old(self), signal),
    {
        match (self.phase, signal) {
            (Phase::Walk, Signal::Walked(found)) => match found {
                Some(files) => {
                    self.total_files = files;
                    self.go(Phase::Manifest)
                },
                None => self.refuse(Refusal::WalkFailed),
            },
            (Phase::Manifest, Signal::Manifest(fact)) => {
                if fact == ManifestFact::Unreadable {
                    self.refuse(Refusal::ManifestUnreadable)
                } else if self.mode == Mode::Rebuild || fact == ManifestFact::Absent {
                    self.rebuild(Refusal::ManifestMissing)
                } else if fact == ManifestFact::Incompatible {
                    self.rebuild(Refusal::ManifestIncompatible)
                } else {
                    self.go(Phase::Diff)
                }
            },
            (Phase::Diff, Signal::Diff(found)) => match found {
                Some(diff) => {
                    if self.embeddings_enabled {
                        self.diff = Some(diff);
                        self.go(Phase::CollectionCheck)
                    } else {
                        self.follow_diff(diff)
                    }
                },
                None => self.refuse(Refusal::DiffFailed),
            },
            (Phase::CollectionCheck, Signal::Collection(found)) => match (found, self.diff) {
                (Some(true), Some(diff)) => self.follow_diff(diff),
                (Some(_), _) => self.rebuild(Refusal::CollectionMissing),
                (None, _) => self.refuse(Refusal::CollectionLookupFailed),
            },
            (Phase::RowsUpToDate, Signal::Rows(rows)) => match rows {
                Some(count) => self.keep(checked_vector_row_count(count)),
                None => {
                    let vectors = self.before().vectors_inserted;
                    self.keep(vectors)
                },
            },
            (Phase::RecordUpToDate, Signal::Done(ok)) => {
                self.go_if(ok, Phase::Finished(Outcome::UpToDate), Failure::RecordBackend)
            },
            _ => Persist::Keep,
        }
    }

    fn prepare(&mut self, signal: Signal) -> (r: Persist)
        ensures
            (*final(self), r) == prepare_step(*old(self), signal),
    {
        match (self.phase, signal) {
            (Phase::FindOld, Signal::Collection(found)) => match found {
                Some(true) => self.go(Phase::DropOld),
                Some(false) => self.go(Phase::FindCurrent),
                None => self.fail(Failure::PrepareVectors),
            },
            (Phase::DropOld, Signal::Done(ok)) => {
                self.go_if(ok, Phase::FindCurrent, Failure::PrepareVectors)
            },
            (Phase::FindCurrent, Signal::Collection(found)) => match found {
                Some(true) => self.go(Phase::PrepareLexical),
                Some(false) => self.go(Phase::Create),
                None => self.fail(Failure::PrepareVectors),
            },
            (Phase::Create, Signal::Done(ok)) => {
                self.go_if(ok, Phase::PrepareLexical, Failure::PrepareVectors)
            },
            (Phase::PrepareLexical, Signal::Done(ok)) => {
                if !ok {
                    self.fail(Failure::PrepareLexical)
                } else if self.stale && self.embeddings_enabled {
                    self.go(Phase::DeleteVectors)
                } else {
                    self.read()
                }
            },
            (Phase::DeleteVectors, Signal::Done(ok)) => {
                if ok {
                    self.read()
                } else {
                    self.fail(Failure::DeleteVectors)
                }
            },
            _ => Persist::Keep,
        }
    }

    fn end_unread(&mut self, signal: Signal) -> (r: Persist)
        ensures
            (*final(self), r) == unread_step(*old(self), signal),
    {
        match (self.phase, signal) {
            (Phase::ManifestOnly, Signal::Done(ok)) => {
                if !ok {
                    self.fail(Failure::WriteManifest)
                } else if self.embeddings_enabled {
                    self.go(Phase::RowsOnly)
                } else {
                    self.finish_unread(0)
                }
            },
            (Phase::RowsOnly, Signal::Rows(rows)) => {
                self.vectors = match rows {
                    Some(count) => checked_vector_row_count(count),
                    None => 0,
                };
                self.go(Phase::RecordOnly)
            },
            (Phase::RecordOnly, Signal::Done(ok)) => {
                if ok {
                    let vectors: usize = self.vectors;
                    self.finish_unread(vectors)
                } else {
                    self.fail(Failure::RecordBackend)
                }
            },
            _ => Persist::Keep,
        }
    }

    fn fill(&mut self, signal: Signal) -> (r: Persist)
        requires
            countable(*old(self), signal),
        ensures
            (*final(self), r) == fill_step(*old(self), signal),
    {
        match (self.phase, signal) {
            (Phase::Split, Signal::FileSplit(count)) => {
                let mut status = self.status;
                let persist = split_progress(&mut status, count);
                self.status = status;
                persist
            },
            (Phase::Split, Signal::Chunked(chunks)) => {
                self.status.processed_files = self.selected_files;
                self.status.total_chunks = chunks;
                self.chunks = chunks;
                self.phase = Phase::Populate;
                Persist::Write(self.status)
            },
            (Phase::Populate, Signal::BatchStored { embedded, inserted }) => {
                if self.embeddings_enabled && self.chunks > 0 {
                    self.embeddings = self.embeddings + embedded;
                    self.vectors = self.vectors + inserted;
                    self.status.embeddings_generated = self.embeddings;
                    self.status.vectors_inserted = self.vectors;
                    Persist::Write(self.status)
                } else {
                    Persist::Keep
                }
            },
            (Phase::Populate, Signal::BatchFailed) => {
                if self.embeddings_enabled && self.chunks > 0 {
                    self.batch_failed = true;
                }
                Persist::Keep
            },
            (Phase::Populate, Signal::Populated { lexical_stored }) => {
                if lexical_stored {
                    self.settle()
                } else {
                    self.fail(Failure::UpdateLexical)
                }
            },
            (Phase::RowsAfter, Signal::Rows(_)) => self.go(Phase::ManifestAfter),
            (Phase::ManifestAfter, Signal::Done(ok)) => {
                if !ok {
                    self.fail(Failure::WriteManifest)
                } else if self.embeddings_enabled {
                    self.go(Phase::RecordAfter)
                } else {
                    self.finish()
                }
            },
            (Phase::RecordAfter, Signal::Done(ok)) => {
                if ok {
                    self.finish()
                } else {
                    self.fail(Failure::RecordBackend)
                }
            },
            _ => Persist::Keep,
        }
    }

    /// Takes in what the host reports, and says what becomes of the status record.
    pub fn advance(&mut self, signal: Signal) -> (r: Persist)
        requires
            countable(*old(self), signal),
        ensures
            (*final(self), r) == step(*old(self), signal),
    {
        match self.phase {
            Phase::LexicalGate | Phase::CollectionGate | Phase::RecordGate | Phase::BackendGate => {
                self.pass_gate(signal)
            },
            Phase::Walk | Phase::Manifest | Phase::Diff | Phase::CollectionCheck | Phase::RowsUpToDate | Phase::RecordUpToDate => {
                self.plan(signal)
            },
            Phase::FindOld | Phase::DropOld | Phase::FindCurrent | Phase::Create | Phase::PrepareLexical | Phase::DeleteVectors => {
                self.prepare(signal)
            },
            Phase::ManifestOnly | Phase::RowsOnly | Phase::RecordOnly => {
                self.end_unread(signal)
            },
            Phase::Split | Phase::Populate | Phase::RowsAfter | Phase::ManifestAfter | Phase::RecordAfter => {
                self.fill(signal)
            },
            Phase::Finished(_) => Persist::Keep,
        }
    }
}

} // verus!
