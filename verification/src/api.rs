//! The indexer that callers hold: it starts runs over codebases, shows how they
//! stand, and decides how to search, to clear and to list.

use crate::config::Config;
use crate::engine::board::StatusBoard;
use crate::engine::control::{started, Ask, ManifestFact, Mode, Outcome, Phase, Signal};
use crate::engine::history::{answered, refused, succeeded};
use crate::engine::indexer::{
    begun, index_codebase, law_run_without_manifest_reads_what_was_walked, run_after, signals_of,
    to_read, update_codebase_index, ErrorView, Event, IndexError, IndexRun, IndexerState,
};
use crate::engine::status::Persist;
use crate::path::{components, path_join, path_text, HostPath, SLASH};
use crate::text::{contains_text, same_text, view_opt, views};
use crate::types::{nothing_counted, CodeChunk, IndexState, IndexStatus};
use crate::vectordb::files::{extension_of, extension_text};
use crate::vectordb::local::CollectionView;
use crate::vectordb::naming::{collection_name, Location};
use crate::vectordb::store::{
    backend_name, law_trailing_slashes_go, without_trailing_slashes, VectorStore,
};
use vstd::prelude::*;
use vstd::string::StringExecFns;
use vstd::utf8::encode_utf8;

verus! {

/// What an index or update did.
#[derive(Debug)]
pub struct IndexResult {
    pub files_indexed: usize,
    pub chunks_created: usize,
    pub lexical_only: bool,
    pub duration_ms: u64,
    pub warnings: Vec<String>,
}

/// A search result, with the bits of its score.
#[derive(Debug)]
pub struct SearchHit {
    pub file_path: HostPath,
    pub relative_path: String,
    pub content: String,
    pub start_line: u32,
    pub end_line: u32,
    pub language: String,
    pub score: u32,
}

#[derive(Debug)]
pub struct CollectionInfo {
    pub name: String,
    pub row_count: u64,
}

/// A chunk that retrieval found, with the bits of its score.
#[derive(Debug)]
pub struct HybridHit {
    pub chunk: CodeChunk,
    pub score: u32,
}

/// How files are split.
#[derive(Debug, Clone, Copy, PartialEq, Eq, Structural)]
pub struct SplitterSettings {
    pub max_chunk_bytes: usize,
    pub overlap_lines: usize,
}

/// A run that has begun, with what it works on.
#[derive(Debug)]
pub struct BegunRun {
    pub state: IndexerState,
    pub splitter: SplitterSettings,
    pub run: IndexRun,
    pub persist: Persist,
}

/// How to search.
#[derive(Debug)]
pub struct SearchPlan {
    pub collection: String,
    /// Search the vectors too, not only the lexical index.
    pub semantic: bool,
}

/// A step of clearing an index.
#[derive(Debug, Clone, Copy, PartialEq, Eq, Structural)]
pub enum ClearStep {
    DropCollection,
    /// Show that there is no index, and remove the status record if possible.
    ResetStatus,
    RemoveManifest,
    /// Remove the provenance record if possible.
    RemoveBackendRecord,
    /// Show no status any more.
    ForgetStatus,
    ClearLexical,
}

/// The indexer.
#[derive(Debug)]
pub struct Indexer {
    pub config: Config,
    pub embeddings_enabled: bool,
    pub vector_store: VectorStore,
    pub statuses: StatusBoard,
}

/// What is wrong with a path that is to be a codebase.
pub open spec fn directory_error(path: Seq<u8>, present: bool, is_dir: bool) -> Option<Seq<char>> {
    if !(path.len() > 0 && path[0] == SLASH) {
        Some("path must be absolute: "@ + path_text(path))
    } else if !present {
        Some("path does not exist: "@ + path_text(path))
    } else if !is_dir {
        Some("path is not a directory: "@ + path_text(path))
    } else {
        None
    }
}

fn about(lead: &str, path: &HostPath) -> (r: String)
    ensures
        r@ == lead@ + path_text(path@),
{
    let mut text = lead.to_owned();
    text.append(path.to_text().as_str());
    text
}

/// Checks a path that is to be a codebase, given what the host found there.
pub fn validate_directory(path: &HostPath, present: bool, is_dir: bool) -> (r: Result<(), String>)
    ensures
        match r {
            Ok(_) => directory_error(path@, present, is_dir) is None,
            Err(text) => directory_error(path@, present, is_dir) == Some(text@),
        },
{
    if !path.is_absolute() {
        return Err(about("path must be absolute: ", path));
    }
    if !present {
        return Err(about("path does not exist: ", path));
    }
    if !is_dir {
        return Err(about("path is not a directory: ", path));
    }
    Ok(())
}

/// What is said where a run is under way already.
pub open spec fn busy_text(path: Seq<u8>) -> Seq<char> {
    "Indexing is already running for "@ + path_text(path) + ". Use force to rebuild."@
}

/// The server that a configuration names.
pub open spec fn configured_server(config: Config) -> Option<Seq<char>> {
    if config.uses_milvus() {
        Some(without_trailing_slashes(config.milvus_url@))
    } else {
        None
    }
}

/// The token that a configuration has for its server.
pub open spec fn configured_secret(config: Config) -> Option<Seq<char>> {
    if config.uses_milvus() {
        view_opt(config.milvus_token)
    } else {
        None
    }
}

/// The status shown of a path: that of a run in this process, or else the record
/// on disk, or else that of an index never built.
pub open spec fn shown_status(
    shown: Map<Seq<Seq<u8>>, IndexStatus>,
    path: Seq<u8>,
    persisted: Option<IndexStatus>,
) -> IndexStatus {
    if shown.contains_key(components(path)) {
        shown[components(path)]
    } else {
        match persisted {
            Some(status) => status,
            None => nothing_counted(IndexState::Idle),
        }
    }
}

pub open spec fn running(shown: Map<Seq<Seq<u8>>, IndexStatus>, path: Seq<u8>) -> bool {
    shown.contains_key(components(path)) && shown[components(path)].status == IndexState::Indexing
}

/// What `index` and `update` begin.
pub open spec fn begins_run(
    before: Indexer,
    after: Indexer,
    location: Location,
    present: bool,
    is_dir: bool,
    mode: Mode,
    previous: Option<IndexStatus>,
    r: Result<BegunRun, String>,
) -> bool {
    let path = location.path@;
    let bad = directory_error(path, present, is_dir);
    if bad is Some {
        &&& after == before
        &&& r is Err
        &&& Some(r->Err_0@) == bad
    } else if running(before.statuses@, path) && mode != Mode::Rebuild {
        &&& after == before
        &&& r is Err
        &&& r->Err_0@ == busy_text(path)
    } else {
        &&& after.config == before.config
        &&& after.embeddings_enabled == before.embeddings_enabled
        &&& after.vector_store == before.vector_store
        &&& after.statuses@ == before.statuses@.insert(
            components(path),
            nothing_counted(IndexState::Indexing),
        )
        &&& r is Ok
        &&& r->Ok_0.state.embeddings_enabled == before.embeddings_enabled
        &&& r->Ok_0.state.vector_store.wf()
        &&& r->Ok_0.state.vector_store.server() == configured_server(before.config)
        &&& r->Ok_0.state.vector_store.secret() == configured_secret(before.config)
        &&& r->Ok_0.state.vector_store.memory() == Map::<Seq<char>, CollectionView>::empty()
        &&& r->Ok_0.state.embedding_dimension == before.config.embedding_dimension
        &&& r->Ok_0.state.concurrency == if before.config.concurrency == 0 {
            1
        } else {
            before.config.concurrency
        }
        &&& r->Ok_0.state.indexing_status == nothing_counted(IndexState::Indexing)
        &&& r->Ok_0.splitter.max_chunk_bytes == before.config.chunk_size
        &&& r->Ok_0.splitter.overlap_lines == before.config.chunk_overlap / 80
        &&& r->Ok_0.run@ == begun(mode, r->Ok_0.state, location, previous)
        &&& r->Ok_0.persist == Persist::Write(nothing_counted(IndexState::Indexing))
    }
}

/// Why an index may not be cleared: its provenance record names another backend,
/// or its recorded vectors are not to be seen. The local store shows them only if
/// the collection has at least as many rows; a server, whose row counts lag, if
/// it has the collection.
pub open spec fn clear_error(
    path: Seq<u8>,
    server: Option<Seq<char>>,
    has_collection: bool,
    recorded_backend: Option<Seq<char>>,
    recorded_vectors: usize,
    rows: Option<u64>,
) -> Option<Seq<char>> {
    let visible = has_collection && (server is Some || (rows is Some && rows->0
        >= recorded_vectors));
    if recorded_backend is Some && recorded_backend->0 != backend_name(server) {
        Some(
            "The recorded index was built against vector backend '"@ + recorded_backend->0
                + "' but the current backend is '"@ + backend_name(server)
                + "'; configure the recorded backend so clear can drop its collection"@,
        )
    } else if recorded_vectors > 0 && !visible {
        Some(
            "The recorded index for "@ + path_text(path)
                + " has vectors in a backend this environment cannot see (e.g. Milvus without MILVUS_URL set); configure that backend so clear can drop the collection, or remove "@
                + path_text(path) + "/.sindexer/ manually if the vectors are already gone"@,
        )
    } else {
        None
    }
}

/// The steps of clearing an index, in order. The collection goes before the
/// records that tell of it, and the manifest goes with the lexical index.
pub open spec fn clear_steps(has_collection: bool) -> Seq<ClearStep> {
    let rest = seq![
        ClearStep::ResetStatus,
        ClearStep::RemoveManifest,
        ClearStep::RemoveBackendRecord,
        ClearStep::ForgetStatus,
        ClearStep::ClearLexical,
    ];
    if has_collection {
        seq![ClearStep::DropCollection] + rest
    } else {
        rest
    }
}

/// Where a hit is shown: in the local checkout, unless its relative path is not
/// known. What was recorded may come from another host.
pub open spec fn shown_path(root: Seq<u8>, hit: HybridHit) -> Seq<u8> {
    if hit.chunk.relative_path@.len() == 0 {
        hit.chunk.file_path@
    } else {
        path_join(root, encode_utf8(hit.chunk.relative_path@))
    }
}

#[verifier::ext_equal]
pub struct FoundView {
    pub file_path: Seq<u8>,
    pub relative_path: Seq<char>,
    pub content: Seq<char>,
    pub start_line: u32,
    pub end_line: u32,
    pub language: Seq<char>,
    pub score: u32,
}

impl View for SearchHit {
    type V = FoundView;

    open spec fn view(&self) -> FoundView {
        FoundView {
            file_path: self.file_path@,
            relative_path: self.relative_path@,
            content: self.content@,
            start_line: self.start_line,
            end_line: self.end_line,
            language: self.language@,
            score: self.score,
        }
    }
}

/// A hit as it is shown.
pub open spec fn found(root: Seq<u8>, hit: HybridHit) -> FoundView {
    FoundView {
        file_path: shown_path(root, hit),
        relative_path: hit.chunk.relative_path@,
        content: hit.chunk.content@,
        start_line: hit.chunk.start_line,
        end_line: hit.chunk.end_line,
        language: hit.chunk.language@,
        score: hit.score,
    }
}

impl Indexer {
    /// An indexer with the components that the configuration names.
    pub fn new(config: Config) -> (r: Self)
        ensures
            r.config == config,
            r.embeddings_enabled == config.embeds(),
            r.vector_store.wf(),
            r.vector_store.server() == configured_server(config),
            r.vector_store.secret() == configured_secret(config),
            r.vector_store.memory() == Map::<Seq<char>, CollectionView>::empty(),
            r.statuses@ == Map::<Seq<Seq<u8>>, IndexStatus>::empty(),
    {
        let embeddings_enabled = config.has_embedding_url();
        let vector_store = VectorStore::from_config(&config);
        Self::with_components(config, embeddings_enabled, vector_store)
    }

    /// An indexer with the given components.
    pub fn with_components(
        config: Config,
        embeddings_enabled: bool,
        vector_store: VectorStore,
    ) -> (r: Self)
        ensures
            r.config == config,
            r.embeddings_enabled == embeddings_enabled,
            r.vector_store == vector_store,
            r.statuses@ == Map::<Seq<Seq<u8>>, IndexStatus>::empty(),
    {
        Indexer { config, embeddings_enabled, vector_store, statuses: StatusBoard::new() }
    }

    /// How the index of a codebase stands; `persisted` is its record on disk.
    pub fn status(&self, path: &HostPath, persisted: Option<IndexStatus>) -> (r: IndexStatus)
        ensures
            r == shown_status(self.statuses@, path@, persisted),
    {
        match self.statuses.get(path) {
            Some(status) => status,
            None => match persisted {
                Some(status) => status,
                None => IndexStatus::default(),
            },
        }
    }

    /// Whether a run over the codebase is under way in this process.
    pub fn is_indexing(&self, path: &HostPath) -> (r: bool)
        ensures
            r == running(self.statuses@, path@),
    {
        match self.statuses.get(path) {
            Some(status) => status.status == IndexState::Indexing,
            None => false,
        }
    }

    fn create_indexer_state(&self) -> (r: (IndexerState, SplitterSettings))
        ensures
            r.0.indexing_status == nothing_counted(IndexState::Idle),
            r.0.embeddings_enabled == self.embeddings_enabled,
            r.0.vector_store.wf(),
            r.0.vector_store.server() == configured_server(self.config),
            r.0.vector_store.secret() == configured_secret(self.config),
            r.0.vector_store.memory() == Map::<Seq<char>, CollectionView>::empty(),
            r.0.embedding_dimension == self.config.embedding_dimension,
            r.0.concurrency == if self.config.concurrency == 0 {
                1
            } else {
                self.config.concurrency
            },
            r.1.max_chunk_bytes == self.config.chunk_size,
            r.1.overlap_lines == self.config.chunk_overlap / 80,
    {
        let state = IndexerState::with_concurrency(
            self.embeddings_enabled,
            VectorStore::from_config(&self.config),
            self.config.embedding_dimension,
            self.config.concurrency,
        );
        let splitter = SplitterSettings {
            max_chunk_bytes: self.config.chunk_size,
            overlap_lines: self.config.chunk_overlap / 80,
        };
        (state, splitter)
    }

    /// Begins a full or manifest-guided index build; `force` rebuilds from scratch.
    pub fn index(
        &mut self,
        location: &Location,
        present: bool,
        is_dir: bool,
        force: bool,
        previous: Option<IndexStatus>,
    ) -> (r: Result<BegunRun, String>)
        ensures
            begins_run(
                *old(self),
                *final(self),
                *location,
                present,
                is_dir,
                if force {
                    Mode::Rebuild
                } else {
                    Mode::Index
                },
                previous,
                r,
            ),
    {
        self.run_index(
            location,
            present,
            is_dir,
            if force {
                Mode::Rebuild
            } else {
                Mode::Index
            },
            previous,
        )
    }

    /// Begins an incremental update that touches only changed and deleted files. It
    /// fails if no compatible index exists rather than rebuild.
    pub fn update(
        &mut self,
        location: &Location,
        present: bool,
        is_dir: bool,
        previous: Option<IndexStatus>,
    ) -> (r: Result<BegunRun, String>)
        ensures
            begins_run(
                *old(self),
                *final(self),
                *location,
                present,
                is_dir,
                Mode::Update,
                previous,
                r,
            ),
    {
        self.run_index(location, present, is_dir, Mode::Update, previous)
    }

    fn run_index(
        &mut self,
        location: &Location,
        present: bool,
        is_dir: bool,
        mode: Mode,
        previous: Option<IndexStatus>,
    ) -> (r: Result<BegunRun, String>)
        ensures
            begins_run(*old(self), *final(self), *location, present, is_dir, mode, previous, r),
    {
        if let Err(text) = validate_directory(&location.path, present, is_dir) {
            return Err(text);
        }
        if self.is_indexing(&location.path) && mode != Mode::Rebuild {
            let mut text = about("Indexing is already running for ", &location.path);
            text.append(". Use force to rebuild.");
            return Err(text);
        }
        let (mut state, splitter) = self.create_indexer_state();
        let started = match mode {
            Mode::Update => update_codebase_index(&mut state, location, previous),
            Mode::Index => index_codebase(&mut state, location, false, previous),
            Mode::Rebuild => index_codebase(&mut state, location, true, previous),
        };
        match started {
            Ok((run, persist)) => {
                self.statuses.insert(&location.path, IndexStatus::of(IndexState::Indexing));
                Ok(BegunRun { state, splitter, run, persist })
            },
            Err(error) => Err(error.message),
        }
    }

    /// Shows the status that a run has, once it left its first state; tells whether
    /// it is final.
    pub fn mirror(&mut self, path: &HostPath, status: IndexStatus) -> (r: bool)
        ensures
            r == (status.status == IndexState::Completed || status.status == IndexState::Failed),
            final(self).config == old(self).config,
            final(self).embeddings_enabled == old(self).embeddings_enabled,
            final(self).vector_store == old(self).vector_store,
            final(self).statuses@ == (if status.status == IndexState::Idle {
                old(self).statuses@
            } else {
                old(self).statuses@.insert(components(path@), status)
            }),
    {
        if status.status != IndexState::Idle {
            self.statuses.insert(path, status);
        }
        status.status == IndexState::Completed || status.status == IndexState::Failed
    }

    /// How to search a codebase for `limit` results. `recorded_backend` is the
    /// backend that the provenance record names, where there is one that can be
    /// read: hits from another backend would be stale.
    pub fn search(
        &self,
        location: &Location,
        present: bool,
        is_dir: bool,
        limit: usize,
        recorded_backend: Option<&str>,
    ) -> (r: Result<SearchPlan, String>)
        ensures
            ({
                let bad = directory_error(location.path@, present, is_dir);
                match r {
                    Err(text) => Some(text@) == if bad is Some {
                        bad
                    } else if limit == 0 {
                        Some("limit must be greater than 0"@)
                    } else {
                        None
                    },
                    Ok(plan) => {
                        &&& bad is None
                        &&& limit > 0
                        &&& plan.collection@ == collection_name(
                            location.path@,
                            location.identity(),
                        )
                        &&& plan.semantic == (self.embeddings_enabled && (recorded_backend is None
                            || recorded_backend->0@ == backend_name(self.vector_store.server())))
                    },
                }
            }),
    {
        if let Err(text) = validate_directory(&location.path, present, is_dir) {
            return Err(text);
        }
        if limit == 0 {
            return Err("limit must be greater than 0".to_owned());
        }
        let provenance_ok = match recorded_backend {
            Some(recorded) => same_text(recorded, self.vector_store.provenance().as_str()),
            None => true,
        };
        Ok(
            SearchPlan {
                collection: location.collection_name(),
                semantic: provenance_ok && self.embeddings_enabled,
            },
        )
    }

    /// How to clear the index of a codebase, or why that is refused.
    /// `recorded_backend` is the backend that the provenance record names, where
    /// there is one that can be read, `persisted` the status record, and `rows` the
    /// row count of a local collection.
    pub fn clear(
        &self,
        path: &HostPath,
        has_collection: bool,
        recorded_backend: Option<&str>,
        persisted: Option<IndexStatus>,
        rows: Option<u64>,
    ) -> (r: Result<Vec<ClearStep>, String>)
        ensures
            ({
                let bad = clear_error(
                    path@,
                    self.vector_store.server(),
                    has_collection,
                    view_opt(recorded_backend),
                    match persisted {
                        Some(status) => status.vectors_inserted,
                        None => 0,
                    },
                    rows,
                );
                match r {
                    Ok(steps) => bad is None && steps@ == clear_steps(has_collection),
                    Err(text) => bad == Some(text@),
                }
            }),
    {
        let current = self.vector_store.provenance();
        if let Some(recorded) = recorded_backend {
            if !same_text(recorded, current.as_str()) {
                let mut text = "The recorded index was built against vector backend '".to_owned();
                text.append(recorded);
                text.append("' but the current backend is '");
                text.append(current.as_str());
                text.append("'; configure the recorded backend so clear can drop its collection");
                return Err(text);
            }
        }
        let recorded_vectors: usize = match persisted {
            Some(status) => status.vectors_inserted,
            None => 0,
        };
        let evidence_visible = match &self.vector_store {
            VectorStore::Milvus(_) => has_collection,
            VectorStore::Local(_) => has_collection && match rows {
                Some(count) => count >= recorded_vectors as u64,
                None => false,
            },
        };
        if recorded_vectors > 0 && !evidence_visible {
            let mut text = about("The recorded index for ", path);
            text.append(
                " has vectors in a backend this environment cannot see (e.g. Milvus without MILVUS_URL set); configure that backend so clear can drop the collection, or remove ",
            );
            text.append(path.to_text().as_str());
            text.append("/.sindexer/ manually if the vectors are already gone");
            return Err(text);
        }
        let mut steps: Vec<ClearStep> = Vec::new();
        if has_collection {
            steps.push(ClearStep::DropCollection);
        }
        steps.push(ClearStep::ResetStatus);
        steps.push(ClearStep::RemoveManifest);
        steps.push(ClearStep::RemoveBackendRecord);
        steps.push(ClearStep::ForgetStatus);
        steps.push(ClearStep::ClearLexical);
        assert(steps@ =~= clear_steps(has_collection));
        Ok(steps)
    }

    /// Shows that a codebase has no index.
    pub fn reset_status(&mut self, path: &HostPath)
        ensures
            final(self).config == old(self).config,
            final(self).embeddings_enabled == old(self).embeddings_enabled,
            final(self).vector_store == old(self).vector_store,
            final(self).statuses@ == old(self).statuses@.insert(
                components(path@),
                nothing_counted(IndexState::Idle),
            ),
    {
        self.statuses.insert(path, IndexStatus::default());
    }

    /// Shows no status of a codebase any more.
    pub fn forget_status(&mut self, path: &HostPath)
        ensures
            final(self).config == old(self).config,
            final(self).embeddings_enabled == old(self).embeddings_enabled,
            final(self).vector_store == old(self).vector_store,
            final(self).statuses@ == old(self).statuses@.remove(components(path@)),
    {
        self.statuses.remove(path);
    }

    /// The collections with their row counts, where `counts` has what could be
    /// found out of each name; a count that could not be is shown as zero.
    pub fn list_collections(names: Vec<String>, counts: &[Option<u64>]) -> (r: Vec<CollectionInfo>)
        requires
            names@.len() == counts@.len(),
        ensures
            r@.len() == names@.len(),
            forall|i: int|
                0 <= i < r@.len() ==> (#[trigger] r@[i]).name@ == names@[i]@ && r@[i].row_count == (
                match counts@[i] {
                    Some(count) => count,
                    None => 0,
                }),
    {
        let ghost all = names@;
        let mut out: Vec<CollectionInfo> = Vec::new();
        for name in it: names
            invariant
                it.seq() == all,
                all.len() == counts@.len(),
                out@.len() == it.index(),
                forall|i: int|
                    0 <= i < out@.len() ==> (#[trigger] out@[i]).name@ == all[i]@
                        && out@[i].row_count == (match counts@[i] {
                        Some(count) => count,
                        None => 0,
                    }),
        {
            let row_count: u64 = match counts[out.len()] {
                Some(count) => count,
                None => 0,
            };
            out.push(CollectionInfo { name, row_count });
        }
        out
    }
}

impl ClearStep {
    /// Whether clearing goes on when the step fails.
    pub fn is_best_effort(self) -> (r: bool)
        ensures
            r == (self == ClearStep::ResetStatus || self == ClearStep::RemoveBackendRecord),
    {
        match self {
            ClearStep::ResetStatus | ClearStep::RemoveBackendRecord => true,
            _ => false,
        }
    }

    /// What is said when the step fails, before the error itself.
    pub fn failure_context(self) -> (r: Option<&'static str>)
        ensures
            view_opt(r) == (match self {
                ClearStep::RemoveManifest => Some("failed to remove index manifest"@),
                ClearStep::ClearLexical => Some("failed to clear lexical index"@),
                _ => None,
            }),
    {
        match self {
            ClearStep::RemoveManifest => Some("failed to remove index manifest"),
            ClearStep::ClearLexical => Some("failed to clear lexical index"),
            _ => None,
        }
    }
}

/// Clearing removes the manifest, and a run that is told so does not take the
/// cleared index for a current one: an update is refused, and any other run that
/// succeeds has read every file that the walk found.
pub proof fn law_cleared_index_is_built_anew(
    has_collection: bool,
    mode: Mode,
    state: IndexerState,
    location: Location,
    previous: Option<IndexStatus>,
    events: Seq<Event>,
)
    requires
        answered(
            started(mode, state.embeddings_enabled, previous),
            signals_of(begun(mode, state, location, previous), events),
            Ask::LoadManifest,
            Signal::Manifest(ManifestFact::Absent),
        ),
        forall|i: int|
            0 <= i < events.len() ==> (#[trigger] events[i] matches Event::Walked(Ok(files))
                ==> files@.len() <= usize::MAX),
    ensures
        clear_steps(has_collection).contains(ClearStep::RemoveManifest),
        ({
            let end = run_after(begun(mode, state, location, previous), events);
            &&& mode == Mode::Update ==> refused(end.control)
            &&& succeeded(end.control) ==> to_read(end) == end.files && end.control.phase
                != Phase::Finished(Outcome::UpToDate)
        }),
{
    let at: int = if has_collection {
        2
    } else {
        1
    };
    assert(clear_steps(has_collection)[at] == ClearStep::RemoveManifest);
    law_run_without_manifest_reads_what_was_walked(mode, state, location, previous, events);
}

/// An index that another backend holds is not cleared, not even with no vector
/// recorded.
pub proof fn law_foreign_backend_blocks_clearing(
    path: Seq<u8>,
    server: Option<Seq<char>>,
    has_collection: bool,
    recorded_backend: Seq<char>,
    recorded_vectors: usize,
    rows: Option<u64>,
)
    requires
        recorded_backend != backend_name(server),
    ensures
        clear_error(
            path,
            server,
            has_collection,
            Some(recorded_backend),
            recorded_vectors,
            rows,
        ) is Some,
{
}

/// An index whose recorded vectors are not in a collection at hand is not
/// cleared; nor is one of which the local store has too few rows.
pub proof fn law_unseen_vectors_block_clearing(
    path: Seq<u8>,
    server: Option<Seq<char>>,
    has_collection: bool,
    recorded_backend: Option<Seq<char>>,
    recorded_vectors: usize,
    rows: Option<u64>,
)
    requires
        recorded_vectors > 0,
        !has_collection || (server is None && (rows is None || rows->0 < recorded_vectors)),
    ensures
        clear_error(
            path,
            server,
            has_collection,
            recorded_backend,
            recorded_vectors,
            rows,
        ) is Some,
{
}

/// Where a hit is shown does not depend on the host that indexed it: only its
/// relative path and the local checkout count, and a relative path stays in that
/// checkout.
pub proof fn law_hits_are_shown_in_the_checkout(root: Seq<u8>, a: HybridHit, b: HybridHit)
    requires
        a.chunk.relative_path@ == b.chunk.relative_path@,
        a.chunk.relative_path@.len() > 0,
    ensures
        shown_path(root, a) == shown_path(root, b),
        encode_utf8(a.chunk.relative_path@).len() > 0 && encode_utf8(a.chunk.relative_path@)[0]
            != SLASH ==> root.is_prefix_of(shown_path(root, a)),
{
}

/// Ends a run's status where it still says that indexing is under way.
pub fn settle_status(status: &mut IndexStatus, succeeded: bool)
    ensures
        *final(status) == (if old(status).status == IndexState::Indexing {
            IndexStatus {
                status: if succeeded {
                    IndexState::Completed
                } else {
                    IndexState::Failed
                },
                ..*old(status)
            }
        } else {
            *old(status)
        }),
{
    if status.status == IndexState::Indexing {
        status.status = if succeeded {
            IndexState::Completed
        } else {
            IndexState::Failed
        };
    }
}

/// What callers are told of a run: its counts, or that indexing failed and why.
pub fn conclude(
    result: Result<crate::engine::indexer::IndexResult, IndexError>,
) -> (r: Result<IndexResult, IndexError>)
    ensures
        match (result, r) {
            (Ok(done), Ok(told)) => told.files_indexed == done.files_processed
                && told.chunks_created == done.chunks_created && told.lexical_only
                == done.lexical_only && told.duration_ms == done.duration_ms && told.warnings@
                == done.warnings@,
            (Err(error), Err(told)) => told@ == (ErrorView {
                message: "indexing failed"@,
                cause: Some(
                    match error@.cause {
                        Some(cause) => error@.message + ": "@ + cause,
                        None => error@.message,
                    },
                ),
            }),
            _ => false,
        },
{
    match result {
        Ok(done) => Ok(
            IndexResult {
                files_indexed: done.files_processed,
                chunks_created: done.chunks_created,
                lexical_only: done.lexical_only,
                duration_ms: done.duration_ms,
                warnings: done.warnings,
            },
        ),
        Err(error) => {
            let mut text = error.message;
            if let Some(cause) = &error.cause {
                text.append(": ");
                text.append(cause.as_str());
            }
            Err(IndexError { message: "indexing failed".to_owned(), cause: Some(text) })
        },
    }
}

/// Gives a hit of the lexical index that has no path the one in the checkout.
pub fn complete_lexical_hit(root: &HostPath, hit: &mut HybridHit)
    ensures
        final(hit).score == old(hit).score,
        final(hit).chunk.id == old(hit).chunk.id,
        final(hit).chunk.content == old(hit).chunk.content,
        final(hit).chunk.relative_path == old(hit).chunk.relative_path,
        final(hit).chunk.start_line == old(hit).chunk.start_line,
        final(hit).chunk.end_line == old(hit).chunk.end_line,
        final(hit).chunk.language == old(hit).chunk.language,
        final(hit).chunk.file_path@ == (if old(hit).chunk.file_path@.len() == 0 {
            path_join(root@, encode_utf8(old(hit).chunk.relative_path@))
        } else {
            old(hit).chunk.file_path@
        }),
{
    if hit.chunk.file_path.is_empty() {
        let file_path = root.join(hit.chunk.relative_path.as_str());
        hit.chunk.file_path = file_path;
    }
}

/// Whether a hit is wanted: any is where no extension is named, else one in a file
/// with a named extension.
pub open spec fn wanted(hit: HybridHit, extensions: Seq<Seq<char>>) -> bool {
    extensions.len() == 0 || match extension_of(hit.chunk.relative_path@) {
        Some(extension) => extensions.contains(extension),
        None => false,
    }
}

/// The wanted hits, in their order.
pub open spec fn wanted_hits(hits: Seq<HybridHit>, extensions: Seq<Seq<char>>) -> Seq<HybridHit>
    decreases hits.len(),
{
    if hits.len() == 0 {
        Seq::empty()
    } else {
        let earlier = wanted_hits(hits.drop_last(), extensions);
        if wanted(hits.last(), extensions) {
            earlier.push(hits.last())
        } else {
            earlier
        }
    }
}

/// The first `limit` hits, or all of them.
pub open spec fn first_hits(hits: Seq<HybridHit>, limit: int) -> Seq<HybridHit> {
    if limit < hits.len() {
        hits.take(limit)
    } else {
        hits
    }
}

/// Restricts hits, best first, to the wanted extensions and the limit.
pub fn restrict_hits(hits: Vec<HybridHit>, limit: usize, extensions: &[String]) -> (r: Vec<
    HybridHit,
>)
    ensures
        r@ == first_hits(wanted_hits(hits@, views(extensions@)), limit as int),
{
    let ghost all = hits@;
    let ghost names = views(extensions@);
    let mut kept: Vec<HybridHit> = Vec::new();
    assert(all.take(0) =~= Seq::empty());
    for hit in it: hits
        invariant
            it.seq() == all,
            names == views(extensions@),
            kept@ == wanted_hits(all.take(it.index() as int), names),
    {
        proof {
            let n = it.index() as int;
            assert(all.take(n + 1).drop_last() =~= all.take(n));
            assert(all.take(n + 1).last() == hit);
        }
        let wanted = if extensions.len() == 0 {
            true
        } else {
            match extension_text(hit.chunk.relative_path.as_str()) {
                Some(extension) => contains_text(extensions, extension.as_str()),
                None => false,
            }
        };
        if wanted {
            kept.push(hit);
        }
    }
    assert(all.take(all.len() as int) =~= all);
    if limit < kept.len() {
        kept.truncate(limit);
    }
    assert(kept@ =~= first_hits(wanted_hits(all, names), limit as int));
    kept
}

/// Restricting gives at most `limit` hits, all of them wanted ones of those given.
pub proof fn law_restricted_hits_are_wanted(
    hits: Seq<HybridHit>,
    limit: int,
    extensions: Seq<Seq<char>>,
    i: int,
)
    requires
        0 <= limit,
        0 <= i < first_hits(wanted_hits(hits, extensions), limit).len(),
    ensures
        first_hits(wanted_hits(hits, extensions), limit).len() <= limit,
        wanted(first_hits(wanted_hits(hits, extensions), limit)[i], extensions),
        hits.contains(first_hits(wanted_hits(hits, extensions), limit)[i]),
{
    lemma_wanted_hits(hits, extensions, i);
}

proof fn lemma_wanted_hits(hits: Seq<HybridHit>, extensions: Seq<Seq<char>>, i: int)
    requires
        0 <= i < wanted_hits(hits, extensions).len(),
    ensures
        wanted(wanted_hits(hits, extensions)[i], extensions),
        hits.contains(wanted_hits(hits, extensions)[i]),
    decreases hits.len(),
{
    let earlier = wanted_hits(hits.drop_last(), extensions);
    if i < earlier.len() {
        lemma_wanted_hits(hits.drop_last(), extensions, i);
        let at = hits.drop_last().index_of(earlier[i]);
        assert(hits[at] == earlier[i]);
    } else {
        assert(hits[hits.len() - 1] == hits.last());
    }
}

/// The hits as they are shown, in their order.
pub fn present_hits(root: &HostPath, hits: Vec<HybridHit>) -> (r: Vec<SearchHit>)
    ensures
        views(r@) == Seq::new(hits@.len(), |i: int| found(root@, hits@[i])),
{
    let ghost all = hits@;
    let mut out: Vec<SearchHit> = Vec::new();
    for hit in it: hits
        invariant
            it.seq() == all,
            out@.len() == it.index(),
            forall|i: int| 0 <= i < out@.len() ==> (#[trigger] out@[i])@ == found(root@, all[i]),
    {
        let file_path = if hit.chunk.relative_path.as_str().is_empty() {
            hit.chunk.file_path
        } else {
            root.join(hit.chunk.relative_path.as_str())
        };
        out.push(
            SearchHit {
                file_path,
                relative_path: hit.chunk.relative_path,
                content: hit.chunk.content,
                start_line: hit.chunk.start_line,
                end_line: hit.chunk.end_line,
                language: hit.chunk.language,
                score: hit.score,
            },
        );
    }
    assert(views(out@) =~= Seq::new(all.len(), |i: int| found(root@, all[i])));
    out
}

/// Clearing an index, with or without a collection, takes every part of it away,
/// each once: the lexical index, the manifest, the provenance record, and the status
/// on disk and shown. The collection is dropped exactly where there is one, and
/// first: what tells of it goes only once it is gone.
pub proof fn law_clearing_takes_every_part_away(has_collection: bool)
    ensures
        clear_steps(has_collection).contains(ClearStep::ClearLexical),
        clear_steps(has_collection).contains(ClearStep::RemoveManifest),
        clear_steps(has_collection).contains(ClearStep::RemoveBackendRecord),
        clear_steps(has_collection).contains(ClearStep::ResetStatus),
        clear_steps(has_collection).contains(ClearStep::ForgetStatus),
        clear_steps(has_collection).contains(ClearStep::DropCollection) <==> has_collection,
        has_collection ==> clear_steps(has_collection)[0] == ClearStep::DropCollection,
        clear_steps(has_collection).no_duplicates(),
        forall|i: int, j: int|
            0 <= i < clear_steps(has_collection).len() && 0 <= j < clear_steps(has_collection).len()
                && #[trigger] clear_steps(has_collection)[i] == ClearStep::ResetStatus
                && #[trigger] clear_steps(has_collection)[j] == ClearStep::ForgetStatus ==> i < j,
        forall|i: int, j: int|
            0 <= i < clear_steps(has_collection).len() && 0 <= j < clear_steps(has_collection).len()
                && #[trigger] clear_steps(has_collection)[i] == ClearStep::RemoveManifest
                && #[trigger] clear_steps(has_collection)[j] == ClearStep::ClearLexical ==> i < j,
{
    let steps = clear_steps(has_collection);
    let n: int = if has_collection {
        1
    } else {
        0
    };
    assert(steps[n] == ClearStep::ResetStatus);
    assert(steps[n + 1] == ClearStep::RemoveManifest);
    assert(steps[n + 2] == ClearStep::RemoveBackendRecord);
    assert(steps[n + 3] == ClearStep::ForgetStatus);
    assert(steps[n + 4] == ClearStep::ClearLexical);
    if has_collection {
        assert(steps[0] == ClearStep::DropCollection);
    }
}

/// An index may be cleared exactly where no other backend is on record, and, if
/// vectors are, there is a collection, which the local store must show with at least
/// as many rows.
pub proof fn law_clearing_is_allowed_where_vectors_are_seen(
    path: Seq<u8>,
    server: Option<Seq<char>>,
    has_collection: bool,
    recorded_backend: Option<Seq<char>>,
    recorded_vectors: usize,
    rows: Option<u64>,
)
    ensures
        clear_error(
            path,
            server,
            has_collection,
            recorded_backend,
            recorded_vectors,
            rows,
        ) is None <==> {
            &&& recorded_backend is None || recorded_backend->0 == backend_name(server)
            &&& recorded_vectors == 0 || (has_collection && (server is Some || (rows is Some
                && recorded_vectors <= rows->0)))
        },
{
}

/// A path can be a codebase exactly where it starts at the root, is there, and is a
/// directory. What is said of any other names what is wrong first, and the path.
pub proof fn law_codebase_is_an_absolute_directory(path: Seq<u8>, present: bool, is_dir: bool)
    ensures
        directory_error(path, present, is_dir) is None <==> path.len() > 0 && path[0] == 47
            && present && is_dir,
        path.len() == 0 || path[0] != 47 ==> directory_error(path, present, is_dir) == Some(
            "path must be absolute: "@ + path_text(path),
        ),
        path.len() > 0 && path[0] == 47 && !present ==> directory_error(path, present, is_dir)
            == Some("path does not exist: "@ + path_text(path)),
        path.len() > 0 && path[0] == 47 && present && !is_dir ==> directory_error(
            path,
            present,
            is_dir,
        ) == Some("path is not a directory: "@ + path_text(path)),
{
}

/// A configuration names a server exactly where its address is not empty: the
/// address without its trailing slashes, and with it the configured token.
pub proof fn law_configured_server_is_the_address(
    config: Config,
    base: Seq<char>,
    slashes: Seq<char>,
)
    requires
        config.milvus_url@ == base + slashes,
        base.len() > 0 ==> base.last() != '/',
        forall|i: int| 0 <= i < slashes.len() ==> #[trigger] slashes[i] == '/',
    ensures
        config.milvus_url@.len() > 0 ==> configured_server(config) == Some(base)
            && configured_secret(config) == view_opt(config.milvus_token),
        config.milvus_url@.len() == 0 ==> configured_server(config) is None && configured_secret(
            config,
        ) is None,
{
    law_trailing_slashes_go(base, slashes);
}

/// What is shown of a path comes from this process where it showed any status of
/// that path, however spelled; else from disk; and an index never built is idle, with
/// nothing counted.
pub proof fn law_shown_status_comes_first(
    shown: Map<Seq<Seq<u8>>, IndexStatus>,
    path: Seq<u8>,
    other: Seq<u8>,
    status: IndexStatus,
    persisted: Option<IndexStatus>,
)
    ensures
        components(path) == components(other) ==> shown_status(
            shown.insert(components(path), status),
            other,
            persisted,
        ) == status && (running(shown.insert(components(path), status), other) <==> status.status
            == IndexState::Indexing),
        components(path) != components(other) ==> shown_status(
            shown.insert(components(path), status),
            other,
            persisted,
        ) == shown_status(shown, other, persisted) && running(
            shown.insert(components(path), status),
            other,
        ) == running(shown, other),
        shown_status(shown.remove(components(path)), path, Some(status)) == status,
        shown_status(shown.remove(components(path)), path, None).status == IndexState::Idle,
        shown_status(shown.remove(components(path)), path, None).vectors_inserted == 0,
        shown_status(shown.remove(components(path)), path, None).total_chunks == 0,
        shown_status(shown.remove(components(path)), path, None).total_files == 0,
        !running(shown.remove(components(path)), path),
{
}

/// A run begins exactly where the path can be a codebase and no run is under way
/// there, or the run is to rebuild. Where it does not, nothing changes. Where it does,
/// it is shown as under way, at that path alone, and works with what is configured,
/// one batch at a time at least.
pub proof fn law_run_begins_where_it_may(
    before: Indexer,
    after: Indexer,
    location: Location,
    present: bool,
    is_dir: bool,
    mode: Mode,
    previous: Option<IndexStatus>,
    r: Result<BegunRun, String>,
)
    requires
        begins_run(before, after, location, present, is_dir, mode, previous, r),
    ensures
        ({
            let path = location.path@;
            let shown = before.statuses@;
            let busy = shown.contains_key(components(path)) && shown[components(path)].status
                == IndexState::Indexing;
            &&& r is Ok <==> path.len() > 0 && path[0] == 47 && present && is_dir && (!busy || mode
                == Mode::Rebuild)
            &&& r is Err ==> after == before
            &&& r is Ok ==> {
                let state = r->Ok_0.state;
                &&& after.config == before.config
                &&& after.statuses@.contains_key(components(path))
                &&& after.statuses@[components(path)].status == IndexState::Indexing
                &&& after.statuses@.remove(components(path)) == shown.remove(components(path))
                &&& state.embeddings_enabled == before.embeddings_enabled
                &&& state.embedding_dimension == before.config.embedding_dimension
                &&& state.concurrency >= 1
                &&& before.config.concurrency >= 1 ==> state.concurrency
                    == before.config.concurrency
                &&& before.config.concurrency == 0 ==> state.concurrency == 1
                &&& r->Ok_0.splitter.max_chunk_bytes == before.config.chunk_size
                &&& r->Ok_0.splitter.overlap_lines == before.config.chunk_overlap / 80
                &&& r->Ok_0.persist is Write
            }
        }),
{
    let key = components(location.path@);
    let shown = before.statuses@;
    if r is Ok {
        assert(after.statuses@.remove(key) =~= shown.remove(key));
    }
}

/// A hit is shown with what was found; its path is the relative path in the local
/// checkout, or, without one, the path that was recorded.
pub proof fn law_shown_hit_is_what_was_found(root: Seq<u8>, hit: HybridHit)
    ensures
        found(root, hit).relative_path == hit.chunk.relative_path@,
        found(root, hit).content == hit.chunk.content@,
        found(root, hit).start_line == hit.chunk.start_line,
        found(root, hit).end_line == hit.chunk.end_line,
        found(root, hit).language == hit.chunk.language@,
        found(root, hit).score == hit.score,
        hit.chunk.relative_path@ == Seq::<char>::empty() ==> found(root, hit).file_path
            == hit.chunk.file_path@,
        hit.chunk.relative_path@ != Seq::<char>::empty() ==> found(root, hit).file_path
            == path_join(root, encode_utf8(hit.chunk.relative_path@)),
{
    assert(hit.chunk.relative_path@.len() == 0 ==> hit.chunk.relative_path@ =~= Seq::empty());
}

/// Every wanted hit is kept, in its order and as often as it was given: the wanted
/// hits of one list and then another are those of the one and then of the other, and
/// a single hit is kept exactly where no extension is named or its own is.
pub proof fn law_wanted_hits_are_kept_in_order(
    first: Seq<HybridHit>,
    second: Seq<HybridHit>,
    hit: HybridHit,
    extensions: Seq<Seq<char>>,
)
    ensures
        wanted_hits(first + second, extensions) == wanted_hits(first, extensions) + wanted_hits(
            second,
            extensions,
        ),
        extensions.len() == 0 ==> wanted_hits(first, extensions) == first,
        extensions.len() > 0 && (exists|i: int|
            0 <= i < extensions.len() && Some(#[trigger] extensions[i]) == extension_of(
                hit.chunk.relative_path@,
            )) ==> wanted_hits(seq![hit], extensions) == seq![hit],
        extensions.len() > 0 && !(exists|i: int|
            0 <= i < extensions.len() && Some(#[trigger] extensions[i]) == extension_of(
                hit.chunk.relative_path@,
            )) ==> wanted_hits(seq![hit], extensions) == Seq::<HybridHit>::empty(),
    decreases first.len() + second.len(),
{
    lemma_wanted_hits_concat(first, second, extensions);
    if extensions.len() == 0 {
        lemma_all_wanted(first, extensions);
    }
    let one = seq![hit];
    assert(one.drop_last() =~= Seq::empty());
    assert(wanted_hits(one.drop_last(), extensions) =~= Seq::empty());
    assert(one.last() == hit);
    assert(Seq::<HybridHit>::empty().push(hit) =~= one);
    if let Some(extension) = extension_of(hit.chunk.relative_path@) {
        if extensions.contains(extension) {
            let i = extensions.index_of(extension);
            assert(Some(extensions[i]) == extension_of(hit.chunk.relative_path@));
        }
    }
}

proof fn lemma_wanted_hits_concat(
    first: Seq<HybridHit>,
    second: Seq<HybridHit>,
    extensions: Seq<Seq<char>>,
)
    ensures
        wanted_hits(first + second, extensions) =~= wanted_hits(first, extensions) + wanted_hits(
            second,
            extensions,
        ),
    decreases second.len(),
{
    if second.len() == 0 {
        assert(first + second =~= first);
    } else {
        assert((first + second).drop_last() =~= first + second.drop_last());
        assert((first + second).last() == second.last());
        lemma_wanted_hits_concat(first, second.drop_last(), extensions);
    }
}

proof fn lemma_all_wanted(hits: Seq<HybridHit>, extensions: Seq<Seq<char>>)
    requires
        extensions.len() == 0,
    ensures
        wanted_hits(hits, extensions) =~= hits,
    decreases hits.len(),
{
    if hits.len() > 0 {
        lemma_all_wanted(hits.drop_last(), extensions);
        assert(hits.drop_last().push(hits.last()) =~= hits);
    }
}

/// The first hits are the front of the list, as many as are wanted and there.
pub proof fn law_first_hits_are_the_front(hits: Seq<HybridHit>, limit: int)
    requires
        0 <= limit,
    ensures
        limit <= hits.len() ==> first_hits(hits, limit).len() == limit,
        limit > hits.len() ==> first_hits(hits, limit).len() == hits.len(),
        first_hits(hits, limit).is_prefix_of(hits),
{
}

/// A run that may not begin says why: what is wrong with the path, or else that a run is
/// under way at it, and how to begin nevertheless.
pub proof fn law_run_that_may_not_begin_says_why(
    before: Indexer,
    after: Indexer,
    location: Location,
    present: bool,
    is_dir: bool,
    mode: Mode,
    previous: Option<IndexStatus>,
    r: Result<BegunRun, String>,
)
    requires
        begins_run(before, after, location, present, is_dir, mode, previous, r),
        r is Err,
    ensures
        ({
            let path = location.path@;
            let text = r->Err_0@;
            if path.len() == 0 || path[0] != 47 {
                text == "path must be absolute: "@ + path_text(path)
            } else if !present {
                text == "path does not exist: "@ + path_text(path)
            } else if !is_dir {
                text == "path is not a directory: "@ + path_text(path)
            } else {
                text == "Indexing is already running for "@ + path_text(path)
                    + ". Use force to rebuild."@
            }
        }),
{
}

/// What clearing an index gives, where it is not refused: steps that take away the
/// lexical index, the manifest, the provenance record and the status, and the collection
/// exactly where there is one. It is refused exactly where another backend is on record,
/// or vectors are that are not to be seen.
pub proof fn law_clear_takes_every_part_away(
    indexer: &Indexer,
    path: &HostPath,
    has_collection: bool,
    recorded_backend: Option<&str>,
    persisted: Option<IndexStatus>,
    rows: Option<u64>,
    r: Result<Vec<ClearStep>, String>,
)
    requires
        call_ensures(
            Indexer::clear,
            (indexer, path, has_collection, recorded_backend, persisted, rows),
            r,
        ),
    ensures
        r matches Ok(steps) ==> {
            &&& steps@.contains(ClearStep::ClearLexical)
            &&& steps@.contains(ClearStep::RemoveManifest)
            &&& steps@.contains(ClearStep::RemoveBackendRecord)
            &&& steps@.contains(ClearStep::ResetStatus)
            &&& steps@.contains(ClearStep::ForgetStatus)
            &&& steps@.contains(ClearStep::DropCollection) <==> has_collection
            &&& has_collection ==> steps@[0] == ClearStep::DropCollection
        },
        r is Ok <==> {
            let server = indexer.vector_store.server();
            let recorded: int = if persisted is Some {
                persisted->0.vectors_inserted as int
            } else {
                0
            };
            &&& recorded_backend is None || recorded_backend->0@ == backend_name(server)
            &&& recorded == 0 || (has_collection && (server is Some || (rows is Some && recorded
                <= rows->0)))
        },
{
    law_clearing_takes_every_part_away(has_collection);
}

/// What planning a search gives: a plan exactly where the path is an absolute directory
/// and some result is wanted. The vectors are searched exactly where there is an embedder
/// and no record names another backend.
pub proof fn law_search_is_planned_by_what_is_there(
    indexer: &Indexer,
    location: &Location,
    present: bool,
    is_dir: bool,
    limit: usize,
    recorded_backend: Option<&str>,
    r: Result<SearchPlan, String>,
)
    requires
        call_ensures(
            Indexer::search,
            (indexer, location, present, is_dir, limit, recorded_backend),
            r,
        ),
    ensures
        r is Ok <==> location.path@.len() > 0 && location.path@[0] == 47 && present && is_dir
            && limit > 0,
        r matches Ok(plan) ==> {
            &&& plan.collection@ == collection_name(location.path@, location.identity())
            &&& plan.semantic <==> indexer.embeddings_enabled && (recorded_backend is None
                || recorded_backend->0@ == backend_name(indexer.vector_store.server()))
        },
        r matches Err(text) ==> if location.path@.len() == 0 || location.path@[0] != 47 {
            text@ == "path must be absolute: "@ + path_text(location.path@)
        } else if !present {
            text@ == "path does not exist: "@ + path_text(location.path@)
        } else if !is_dir {
            text@ == "path is not a directory: "@ + path_text(location.path@)
        } else {
            text@ == "limit must be greater than 0"@
        },
{
}

/// What concluding a run gives: its counts as they were, or an error that keeps what the
/// run said, and the error behind that.
pub proof fn law_conclusion_keeps_what_the_run_said(
    result: Result<crate::engine::indexer::IndexResult, IndexError>,
    r: Result<IndexResult, IndexError>,
)
    requires
        call_ensures(conclude, (result,), r),
    ensures
        result is Ok <==> r is Ok,
        result is Ok ==> r->Ok_0.files_indexed == result->Ok_0.files_processed
            && r->Ok_0.chunks_created == result->Ok_0.chunks_created && r->Ok_0.duration_ms
            == result->Ok_0.duration_ms && r->Ok_0.lexical_only == result->Ok_0.lexical_only
            && r->Ok_0.warnings@ == result->Ok_0.warnings@,
        result is Err ==> r->Err_0.message@ == "indexing failed"@ && r->Err_0.cause is Some,
        result is Err && result->Err_0.cause is None ==> r->Err_0@.cause == Some(
            result->Err_0.message@,
        ),
        result is Err && result->Err_0.cause is Some ==> r->Err_0@.cause == Some(
            result->Err_0.message@ + ": "@ + result->Err_0.cause->0@,
        ),
{
    if result is Err {
        let error = result->Err_0;
        assert(error@.message == error.message@);
        assert(r->Err_0@.message == r->Err_0.message@);
        assert(r->Err_0@.cause is Some ==> r->Err_0.cause is Some);
    }
}

/// What presenting hits gives: as many as were found, each in its place, with its own
/// text, lines and score.
pub proof fn law_presented_hits_are_those_found(
    root: &HostPath,
    hits: Vec<HybridHit>,
    r: Vec<SearchHit>,
    i: int,
)
    requires
        call_ensures(present_hits, (root, hits), r),
        0 <= i < hits@.len(),
    ensures
        r@.len() == hits@.len(),
        r@[i].relative_path@ == hits@[i].chunk.relative_path@,
        r@[i].content@ == hits@[i].chunk.content@,
        r@[i].start_line == hits@[i].chunk.start_line,
        r@[i].end_line == hits@[i].chunk.end_line,
        r@[i].language@ == hits@[i].chunk.language@,
        r@[i].score == hits@[i].score,
        hits@[i].chunk.relative_path@.len() == 0 ==> r@[i].file_path@
            == hits@[i].chunk.file_path@,
        hits@[i].chunk.relative_path@.len() > 0 ==> r@[i].file_path@ == path_join(
            root@,
            encode_utf8(hits@[i].chunk.relative_path@),
        ),
{
    assert(views(r@).len() == hits@.len());
    assert(views(r@)[i] == found(root@, hits@[i]));
    assert(views(r@)[i] == r@[i]@);
}

/// What restricting hits gives: at most as many as are wanted, and all of them where
/// there are no more and no extension is named.
pub proof fn law_restricted_hits_are_the_first_wanted(
    hits: Vec<HybridHit>,
    limit: usize,
    extensions: &[String],
    r: Vec<HybridHit>,
)
    requires
        call_ensures(restrict_hits, (hits, limit, extensions), r),
    ensures
        r@.len() <= limit,
        extensions@.len() == 0 && hits@.len() <= limit ==> r@ == hits@,
        extensions@.len() == 0 && hits@.len() > limit ==> r@ == hits@.take(limit as int),
        r@.is_prefix_of(wanted_hits(hits@, views(extensions@))),
        r@.len() < limit ==> r@ == wanted_hits(hits@, views(extensions@)),
{
    if extensions@.len() == 0 {
        lemma_all_wanted(hits@, views(extensions@));
    }
    law_first_hits_are_the_front(wanted_hits(hits@, views(extensions@)), limit as int);
}

/// What listing collections gives: each name with its own count, in order, or with zero
/// where the count is not known.
pub proof fn law_listed_collections_have_their_counts(
    names: Vec<String>,
    counts: &[Option<u64>],
    r: Vec<CollectionInfo>,
    i: int,
)
    requires
        call_ensures(Indexer::list_collections, (names, counts), r),
        names@.len() == counts@.len(),
        0 <= i < names@.len(),
    ensures
        r@.len() == names@.len(),
        r@[i].name@ == names@[i]@,
        counts@[i] is Some ==> r@[i].row_count == counts@[i]->0,
        counts@[i] is None ==> r@[i].row_count == 0,
{
}

/// Clearing goes on past a status that could not be reset and a record that could not be
/// removed, and past nothing else; a manifest or a lexical index that could not be is named.
pub proof fn law_clearing_stops_at_what_matters(
    step: ClearStep,
    goes_on: bool,
    context: Option<&'static str>,
)
    requires
        call_ensures(ClearStep::is_best_effort, (step,), goes_on),
        call_ensures(ClearStep::failure_context, (step,), context),
    ensures
        goes_on <==> step == ClearStep::ResetStatus || step == ClearStep::RemoveBackendRecord,
        step == ClearStep::RemoveManifest ==> view_opt(context) == Some(
            "failed to remove index manifest"@,
        ),
        step == ClearStep::ClearLexical ==> view_opt(context) == Some(
            "failed to clear lexical index"@,
        ),
        step != ClearStep::RemoveManifest && step != ClearStep::ClearLexical ==> context is None,
{
}

} // verus!
