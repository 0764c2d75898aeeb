use rust_indexer::engine::batch::split_failure;
use rust_indexer::engine::control::{Ask, Mode, Phase, RunControl, Signal};
use rust_indexer::engine::indexer::{
    index_codebase, update_codebase_index, BatchReport, Event, IndexError, IndexResult, IndexRun,
    IndexerState, ManifestDiff, ManifestState,
};
use rust_indexer::engine::status::{
    checked_vector_row_count, completed_vector_count, failure_evidence, Persist,
};
use rust_indexer::path::HostPath;
use rust_indexer::types::{CodeChunk, IndexState, IndexStatus};
use rust_indexer::vectordb::local::LocalStore;
use rust_indexer::vectordb::naming::{CollectionScope, Location};
use rust_indexer::vectordb::store::{MilvusClient, VectorStore};

fn location() -> Location {
    Location {
        path: HostPath::from_text("/repo"),
        canonical_path: None,
        scope: CollectionScope {
            identity: None,
            root: None,
        },
        canonical_root: None,
    }
}

fn lexical_state() -> IndexerState {
    IndexerState::new(false, VectorStore::Local(LocalStore::new()), 384)
}

fn semantic_state() -> IndexerState {
    IndexerState::new(true, VectorStore::Local(LocalStore::new()), 4)
}

fn chunk(relative_path: &str) -> CodeChunk {
    CodeChunk {
        id: format!("{relative_path}:1"),
        content: "code".to_string(),
        file_path: HostPath::from_text("/repo").join(relative_path),
        relative_path: relative_path.to_string(),
        start_line: 1,
        end_line: 2,
        language: "python".to_string(),
    }
}

fn files(names: &[&str]) -> Vec<HostPath> {
    names
        .iter()
        .map(|name| HostPath::from_text("/repo").join(name))
        .collect()
}

fn names(items: &[&str]) -> Vec<String> {
    items.iter().map(|item| item.to_string()).collect()
}

fn recorded() -> IndexStatus {
    IndexStatus {
        total_files: 1,
        processed_files: 1,
        total_chunks: 3,
        embeddings_generated: 3,
        vectors_inserted: 3,
        status: IndexState::Completed,
    }
}

/// What a host knows and does: the disk and the backend of a scenario.
struct Host {
    manifest: ManifestState,
    lexical_index: bool,
    has_collection: Result<bool, String>,
    backend_record: Result<Option<String>, String>,
    files: Vec<&'static str>,
    diff: (Vec<&'static str>, Vec<&'static str>, Vec<&'static str>),
    rows: Option<u64>,
    batches: Vec<BatchReport>,
    failing: Option<Ask>,
    status_record: Option<IndexStatus>,
    asked: Vec<Ask>,
}

impl Host {
    fn new(files: &[&'static str]) -> Self {
        Host {
            manifest: ManifestState::Absent,
            lexical_index: false,
            has_collection: Ok(false),
            backend_record: Ok(None),
            files: files.to_vec(),
            diff: (Vec::new(), Vec::new(), Vec::new()),
            rows: None,
            batches: Vec::new(),
            failing: None,
            status_record: None,
            asked: Vec::new(),
        }
    }

    fn persist(&mut self, persist: Persist) {
        match persist {
            Persist::Keep => {}
            Persist::Write(status) => self.status_record = Some(status),
            Persist::Remove => self.status_record = None,
        }
    }

    fn done(&self, ask: Ask) -> Event {
        if self.failing == Some(ask) {
            Event::Done(Err("disk full".to_string()))
        } else {
            Event::Done(Ok(()))
        }
    }

    fn answer(&mut self, run: &mut IndexRun) -> Event {
        let ask = run.ask();
        self.asked.push(ask);
        match ask {
            Ask::LookForIndex => Event::Looked {
                manifest: Some(self.manifest != ManifestState::Absent),
                lexical: Some(self.lexical_index),
            },
            Ask::HasCollection => Event::Collection(self.has_collection.clone()),
            Ask::ReadBackendRecord => Event::BackendRecord(self.backend_record.clone()),
            Ask::WalkFiles => Event::Walked(Ok(files(&self.files))),
            Ask::LoadManifest => Event::Manifest(Ok(self.manifest)),
            Ask::DiffManifest => Event::Compared(Ok(ManifestDiff {
                added: names(&self.diff.0),
                modified: names(&self.diff.1),
                deleted: names(&self.diff.2),
            })),
            Ask::CountRows => Event::Rows(self.rows),
            Ask::DropCollection => {
                self.has_collection = Ok(false);
                self.done(ask)
            }
            Ask::CreateCollection => {
                self.has_collection = Ok(true);
                self.done(ask)
            }
            Ask::WriteBackendRecord => {
                let event = self.done(ask);
                if matches!(event, Event::Done(Ok(()))) {
                    self.backend_record = Ok(Some(run.backend().to_string()));
                }
                event
            }
            Ask::WriteManifest { .. } => {
                let event = self.done(ask);
                if matches!(event, Event::Done(Ok(()))) {
                    self.manifest = ManifestState::Compatible;
                    self.lexical_index = true;
                }
                event
            }
            Ask::PrepareLexical { .. } | Ask::DeleteStaleVectors => self.done(ask),
            Ask::SplitFiles => Event::Split(
                run.files_to_index()
                    .iter()
                    .map(|file| {
                        let relative = file.relative_text(run.path());
                        if relative.contains("unreadable") {
                            Err(split_failure(file, "not text"))
                        } else {
                            Ok(vec![chunk(&relative)])
                        }
                    })
                    .collect(),
            ),
            Ask::Populate { embed } => {
                let chunks = run.take_chunks().len();
                if embed && self.batches.is_empty() {
                    self.batches.push(BatchReport::Stored {
                        embedded: chunks,
                        inserted: chunks,
                        warnings: Vec::new(),
                    });
                }
                Event::Populated(if self.failing == Some(ask) {
                    Err("index locked".to_string())
                } else {
                    Ok(())
                })
            }
            Ask::Nothing => panic!("the run has ended"),
        }
    }

    fn finish(
        &mut self,
        state: &mut IndexerState,
        started: Result<(IndexRun, Persist), IndexError>,
    ) -> Result<IndexResult, IndexError> {
        let (mut run, persist) = started?;
        self.persist(persist);
        while run.ask() != Ask::Nothing {
            let event = self.answer(&mut run);
            if matches!(event, Event::Populated(_)) {
                for report in std::mem::take(&mut self.batches) {
                    let event = Event::Batch(report);
                    assert!(run.can_count(&event));
                    let persist = run.advance(state, event);
                    self.persist(persist);
                }
            }
            let persist = run.advance(state, event);
            self.persist(persist);
        }
        run.finish(5).unwrap()
    }

    fn index(&mut self, state: &mut IndexerState, force: bool) -> Result<IndexResult, IndexError> {
        let started = index_codebase(state, &location(), force, self.status_record);
        self.finish(state, started)
    }

    fn update(&mut self, state: &mut IndexerState) -> Result<IndexResult, IndexError> {
        let started = update_codebase_index(state, &location(), self.status_record);
        self.finish(state, started)
    }
}

#[test]
fn test_completed_vector_count_preserves_nonzero_accepted_count() {
    let completed = IndexStatus {
        vectors_inserted: 33_345,
        status: IndexState::Completed,
        ..IndexStatus::default()
    };
    assert_eq!(completed_vector_count(&completed), Some(33_345));

    let indexing = IndexStatus {
        vectors_inserted: 33_345,
        status: IndexState::Indexing,
        ..IndexStatus::default()
    };
    assert_eq!(completed_vector_count(&indexing), None);
    assert_eq!(
        completed_vector_count(&IndexStatus {
            status: IndexState::Completed,
            ..IndexStatus::default()
        }),
        None
    );
}

#[test]
fn test_index_result_default() {
    let result = IndexResult {
        files_processed: 0,
        chunks_created: 0,
        embeddings_generated: 0,
        vectors_inserted: 0,
        duration_ms: 0,
        warnings: vec![],
        lexical_only: false,
    };
    assert_eq!(result.files_processed, 0);
}

#[test]
fn test_incremental_update_requires_existing_manifest() {
    let mut host = Host::new(&["main.py"]);
    let mut state = lexical_state();
    let err = host.update(&mut state).unwrap_err();

    assert!(err
        .message
        .contains("Incremental update requires an existing index manifest"));
    assert_eq!(state.get_status().status, IndexState::Failed);
    assert_eq!(host.status_record, None);
}

#[test]
fn test_incremental_update_requires_existing_lexical_index() {
    let mut host = Host::new(&["main.py"]);
    let mut state = lexical_state();
    host.index(&mut state, false).unwrap();

    // Simulate a lost lexical cache (manifest still present in the repo).
    host.lexical_index = false;

    let err = host.update(&mut state).unwrap_err();
    assert!(err
        .message
        .contains("Incremental update requires an existing lexical index"));
    assert_eq!(state.get_status().status, IndexState::Failed);
}

#[test]
fn test_incremental_update_processes_only_changed_files() {
    let mut host = Host::new(&["src/lib.rs", "src/main.rs"]);
    let mut state = lexical_state();
    let first_result = host.index(&mut state, false).unwrap();
    assert_eq!(first_result.files_processed, 2);

    host.diff = (vec![], vec!["src/main.rs"], vec![]);
    let update_result = host.update(&mut state).unwrap();
    assert_eq!(update_result.files_processed, 1);
    assert!(update_result.chunks_created > 0);
    let status = state.get_status();
    assert_eq!(status.total_files, 2);
    assert_eq!(status.processed_files, 2);

    host.diff = (vec![], vec![], vec![]);
    let noop_result = host.update(&mut state).unwrap();
    assert_eq!(noop_result.files_processed, 0);
    assert_eq!(noop_result.chunks_created, 0);
    assert!(noop_result
        .warnings
        .iter()
        .any(|warning| warning.contains("already up to date")));
}

#[test]
fn test_reindex_skips_unchanged_files() {
    let mut host = Host::new(&["src/lib.rs", "src/main.rs"]);
    let mut state = semantic_state();

    let first_result = host.index(&mut state, false).unwrap();
    assert!(first_result.files_processed >= 2);
    assert_eq!(host.manifest, ManifestState::Compatible);

    let second_result = host.index(&mut state, false).unwrap();
    assert_eq!(second_result.chunks_created, 0);
    assert!(
        second_result.warnings.is_empty()
            || second_result
                .warnings
                .iter()
                .any(|warning| warning.contains("already up to date"))
    );
    let persisted_status = host.status_record.unwrap();
    assert_eq!(persisted_status.total_files, 2);
    assert_eq!(persisted_status.processed_files, 2);
    assert_eq!(persisted_status.total_chunks, first_result.chunks_created);
    assert_eq!(
        persisted_status.embeddings_generated,
        first_result.embeddings_generated
    );
    assert_eq!(second_result.vectors_inserted, first_result.vectors_inserted);
}

#[test]
fn test_force_reindex_ignores_manifest() {
    let mut host = Host::new(&["src/lib.rs", "src/main.rs"]);
    let mut state = semantic_state();

    let first_result = host.index(&mut state, false).unwrap();
    host.asked.clear();
    let forced_result = host.index(&mut state, true).unwrap();

    assert_eq!(first_result.files_processed, 2);
    assert!(first_result.chunks_created > 0);
    assert_eq!(forced_result.files_processed, 2);
    assert!(forced_result.chunks_created > 0);
    assert!(host.asked.contains(&Ask::DropCollection));
    assert!(host.asked.contains(&Ask::PrepareLexical { clear: true }));
    assert!(host.asked.contains(&Ask::WriteManifest { cached_fingerprints: false }));
}

#[test]
fn test_index_surfaces_vector_backend_errors_instead_of_hanging() {
    let mut host = Host::new(&["main.py"]);
    let milvus = || VectorStore::Milvus(MilvusClient::new("http://127.0.0.1:1", None));
    host.index(&mut IndexerState::new(true, milvus(), 4), false)
        .unwrap();
    host.diff = (vec!["other.py"], vec![], vec![]);

    // Second run: the existence check fails.
    host.backend_record = Ok(None);
    host.has_collection = Err("connection refused".to_string());
    let mut state = IndexerState::new(true, milvus(), 4);
    let err = host.index(&mut state, false).unwrap_err();
    assert!(err
        .message
        .contains("Failed to check vector collection existence"));
    assert_eq!(err.cause.as_deref(), Some("connection refused"));
    assert_eq!(state.get_status().status, IndexState::Failed);
}

#[test]
fn test_lexical_only_indexing_refuses_live_semantic_collection() {
    let mut host = Host::new(&["main.py"]);
    host.has_collection = Ok(true);
    let mut state = lexical_state();
    let err = host.index(&mut state, false).unwrap_err();
    assert!(err.message.contains("embeddings are disabled"));
    assert_eq!(state.get_status().status, IndexState::Failed);
}

#[test]
fn test_lexical_only_indexing_refuses_recorded_remote_vectors() {
    let mut host = Host::new(&["main.py"]);
    host.status_record = Some(recorded());
    let mut state = lexical_state();
    let err = host.index(&mut state, false).unwrap_err();
    assert!(err.message.contains("embeddings are disabled"));
    assert_eq!(state.get_status().status, IndexState::Failed);
}

#[test]
fn test_lexical_only_refusal_preserves_remote_vector_evidence() {
    let mut host = Host::new(&["main.py"]);
    host.status_record = Some(recorded());

    // Refuse twice: the first refusal must not zero the persisted vector
    // count, or the second run would sail through and go stale.
    for _ in 0..2 {
        let mut state = lexical_state();
        let err = host.index(&mut state, false).unwrap_err();
        assert!(err.message.contains("embeddings are disabled"));
        assert_eq!(state.get_status().status, IndexState::Failed);
    }
    let persisted = host.status_record.unwrap();
    assert_eq!(persisted.vectors_inserted, 3);
    assert_eq!(persisted.status, IndexState::Completed);
}

#[test]
fn test_failed_incremental_update_preserves_vector_evidence() {
    let mut host = Host::new(&["main.py"]);
    let first = host.index(&mut semantic_state(), false).unwrap();
    assert!(first.vectors_inserted > 0);

    // Change a file, then fail the incremental run at the embedding stage.
    host.diff = (vec![], vec!["main.py"], vec![]);
    host.batches = vec![BatchReport::Stored {
        embedded: 0,
        inserted: 0,
        warnings: names(&["Skipped embedding for main.py:1-2: dead"]),
    }];
    let mut state = semantic_state();
    let err = host.index(&mut state, false).unwrap_err();
    assert_eq!(err.message, "Failed to generate any embeddings");

    // The failure must not zero the durable vector evidence.
    let persisted = host.status_record.unwrap();
    assert_eq!(persisted.status, IndexState::Failed);
    assert!(persisted.vectors_inserted >= first.vectors_inserted);
}

#[test]
fn test_backend_switch_requires_clear() {
    let mut host = Host::new(&["main.py"]);

    // Build against the local backend; provenance is recorded.
    let first = host.index(&mut semantic_state(), false).unwrap();
    assert!(first.vectors_inserted > 0);
    assert_eq!(host.backend_record, Ok(Some("local".to_string())));

    // Simulate the index having been produced by a different backend.
    host.backend_record = Ok(Some("milvus http://elsewhere:19530".to_string()));

    // Incremental update refuses the mismatch outright.
    let err = host.update(&mut semantic_state()).unwrap_err();
    assert!(err.message.contains("vector backend"));

    // A plain index run refuses too.
    let err = host.index(&mut semantic_state(), false).unwrap_err();
    assert!(err.message.contains("vector backend"));

    // Even --force refuses.
    let err = host.index(&mut semantic_state(), true).unwrap_err();
    assert_eq!(
        err.message,
        "The recorded index was built against vector backend 'milvus http://elsewhere:19530' \
         but the current backend is 'local'; configure the recorded backend and run clear to \
         retire its collection before re-indexing here"
    );

    // After clear retires the record, indexing proceeds and rewrites provenance.
    host.backend_record = Ok(None);
    let rebuilt = host.index(&mut semantic_state(), true).unwrap();
    assert!(rebuilt.chunks_created > 0);
    assert_eq!(host.backend_record, Ok(Some("local".to_string())));
}

#[test]
fn test_lexical_only_indexing_refuses_provenance_record() {
    let mut host = Host::new(&["main.py"]);
    host.backend_record = Ok(Some("milvus http://elsewhere:19530".to_string()));
    let mut state = lexical_state();
    let err = host.index(&mut state, false).unwrap_err();
    assert!(err.message.contains("embeddings are disabled"));
    assert_eq!(state.get_status().status, IndexState::Failed);
}

#[test]
fn test_index_fails_when_provenance_cannot_be_recorded() {
    let mut host = Host::new(&["main.py"]);
    host.failing = Some(Ask::WriteBackendRecord);
    let mut state = semantic_state();
    let err = host.index(&mut state, false).unwrap_err();
    assert!(err.message.contains("provenance"));
    assert_eq!(err.cause.as_deref(), Some("disk full"));
    assert_eq!(state.get_status().status, IndexState::Failed);
}

#[test]
fn test_lexical_only_indexing() {
    let mut host = Host::new(&["main.py"]);
    let result = host.index(&mut lexical_state(), true).unwrap();
    assert!(result.lexical_only);
    assert_eq!(result.embeddings_generated, 0);
    assert_eq!(result.vectors_inserted, 0);
    assert!(result.chunks_created > 0);
    assert!(!host.asked.contains(&Ask::CreateCollection));
    assert!(!host.asked.contains(&Ask::WriteBackendRecord));
}

#[test]
fn a_running_index_is_not_started_twice() {
    let mut state = lexical_state();
    state.indexing_status.status = IndexState::Indexing;
    let err = index_codebase(&mut state, &location(), false, None).unwrap_err();
    assert_eq!(err.message, "Indexing already in progress");
    assert!(update_codebase_index(&mut state, &location(), None).is_err());
    assert!(index_codebase(&mut state, &location(), true, None).is_ok());
}

#[test]
fn a_first_build_asks_in_order() {
    let mut host = Host::new(&["a.py", "b.py"]);
    let result = host.index(&mut semantic_state(), false).unwrap();
    assert_eq!(
        host.asked,
        [
            Ask::ReadBackendRecord,
            Ask::WalkFiles,
            Ask::LoadManifest,
            Ask::HasCollection,
            Ask::HasCollection,
            Ask::CreateCollection,
            Ask::PrepareLexical { clear: true },
            Ask::SplitFiles,
            Ask::Populate { embed: true },
            Ask::CountRows,
            Ask::WriteManifest { cached_fingerprints: false },
            Ask::WriteBackendRecord,
        ]
    );
    assert_eq!(result.chunks_created, 2);
    assert_eq!(result.vectors_inserted, 2);
    assert_eq!(result.duration_ms, 5);
    assert!(!result.lexical_only);
    assert_eq!(
        host.status_record,
        Some(IndexStatus {
            total_files: 2,
            processed_files: 2,
            total_chunks: 2,
            embeddings_generated: 2,
            vectors_inserted: 2,
            status: IndexState::Completed,
        })
    );
}

#[test]
fn an_update_only_removes_what_was_deleted() {
    let mut host = Host::new(&["a.py", "b.py"]);
    host.index(&mut semantic_state(), false).unwrap();
    host.files = vec!["a.py"];
    host.diff = (vec![], vec![], vec!["b.py"]);
    host.rows = Some(1);
    host.asked.clear();
    let result = host.update(&mut semantic_state()).unwrap();
    assert_eq!(result.files_processed, 0);
    assert_eq!(result.vectors_inserted, 0);
    assert!(host.asked.contains(&Ask::DeleteStaleVectors));
    assert!(host.asked.contains(&Ask::PrepareLexical { clear: false }));
    assert!(host.asked.contains(&Ask::WriteManifest { cached_fingerprints: true }));
    assert!(!host.asked.contains(&Ask::DropCollection));
    assert!(!host.asked.contains(&Ask::SplitFiles));
    let status = host.status_record.unwrap();
    assert_eq!(status.vectors_inserted, 1);
    assert_eq!(status.total_chunks, 1);
    assert_eq!(status.total_files, 1);
}

#[test]
fn an_update_needs_the_vector_collection() {
    let mut host = Host::new(&["a.py"]);
    host.index(&mut semantic_state(), false).unwrap();
    host.has_collection = Ok(false);
    let err = host.update(&mut semantic_state()).unwrap_err();
    let name = location().collection_name();
    assert_eq!(
        err.message,
        format!(
            "Incremental update requires existing vector collection {name}; run \
             index_codebase only when a full rebuild is intended"
        )
    );
    // A plain index run rebuilds instead, with the fingerprints at hand.
    host.asked.clear();
    host.index(&mut semantic_state(), false).unwrap();
    assert!(host.asked.contains(&Ask::CreateCollection));
    assert!(host.asked.contains(&Ask::WriteManifest { cached_fingerprints: true }));
}

#[test]
fn an_update_needs_a_compatible_manifest() {
    let mut host = Host::new(&["a.py"]);
    host.manifest = ManifestState::Incompatible;
    host.lexical_index = true;
    let err = host.update(&mut lexical_state()).unwrap_err();
    assert_eq!(
        err.message,
        "Incremental update requires a compatible index manifest; run index_codebase only \
         when a full rebuild is intended"
    );
    assert_eq!(err.cause, None);
}

#[test]
fn files_that_cannot_be_split_are_warned_of() {
    let mut host = Host::new(&["a.py", "unreadable.py"]);
    let result = host.index(&mut lexical_state(), false).unwrap();
    assert_eq!(result.files_processed, 2);
    assert_eq!(result.chunks_created, 1);
    assert_eq!(
        result.warnings,
        ["Failed to split /repo/unreadable.py: not text"]
    );
}

#[test]
fn failed_batches_fail_the_run() {
    let mut host = Host::new(&["a.py"]);
    host.batches = vec![
        BatchReport::Stored {
            embedded: 3,
            inserted: 2,
            warnings: Vec::new(),
        },
        BatchReport::Failed("timeout".to_string()),
        BatchReport::Panicked("oops".to_string()),
    ];
    let mut state = semantic_state();
    let err = host.index(&mut state, false).unwrap_err();
    assert_eq!(
        err.message,
        "Streaming index failed after inserting 2 vectors: Streaming batch failed: timeout; \
         Streaming batch task panicked: oops"
    );
    let status = host.status_record.unwrap();
    assert_eq!(status.status, IndexState::Failed);
    assert_eq!(status.vectors_inserted, 2);
    assert_eq!(status.embeddings_generated, 3);
}

#[test]
fn a_run_without_vectors_tells_its_warnings() {
    let mut host = Host::new(&["a.py", "unreadable.py"]);
    host.batches = vec![BatchReport::Stored {
        embedded: 1,
        inserted: 0,
        warnings: names(&["slow"]),
    }];
    let err = host.index(&mut semantic_state(), false).unwrap_err();
    assert_eq!(
        err.message,
        "Generated 1 chunks and 1 embeddings, but inserted 0 vectors (Failed to split \
         /repo/unreadable.py: not text; slow)"
    );
    let mut host = Host::new(&["a.py"]);
    host.batches = vec![BatchReport::Stored {
        embedded: 1,
        inserted: 0,
        warnings: Vec::new(),
    }];
    let err = host.index(&mut semantic_state(), false).unwrap_err();
    assert_eq!(
        err.message,
        "Generated 1 chunks and 1 embeddings, but inserted 0 vectors"
    );
}

#[test]
fn counts_that_disagree_are_warned_of() {
    let mut host = Host::new(&["a.py"]);
    host.rows = Some(9);
    host.batches = vec![BatchReport::Stored {
        embedded: 4,
        inserted: 3,
        warnings: names(&["first"]),
    }];
    let result = host.index(&mut semantic_state(), false).unwrap();
    assert_eq!(
        result.warnings,
        [
            "first",
            "Vector store stats report 9 rows after 3 accepted inserts; preserving the insert \
             response count",
            "Vector store accepted 3 rows for 4 generated embeddings",
        ]
    );
    assert_eq!(result.vectors_inserted, 3);
}

#[test]
fn every_failing_step_is_named() {
    let cases = [
        (Ask::CreateCollection, "Failed to prepare vector collection"),
        (Ask::PrepareLexical { clear: true }, "Failed to prepare lexical index"),
        (Ask::Populate { embed: true }, "Failed to update lexical index"),
        (
            Ask::WriteManifest { cached_fingerprints: false },
            "Failed to write index manifest",
        ),
        (Ask::WriteBackendRecord, "Failed to record vector backend provenance"),
    ];
    for (ask, message) in cases {
        let mut host = Host::new(&["a.py"]);
        host.failing = Some(ask);
        let err = host.index(&mut semantic_state(), false).unwrap_err();
        assert_eq!(err.message, message);
        assert!(err.cause.is_some());
        assert_eq!(host.status_record.unwrap().status, IndexState::Failed);
    }
    let mut host = Host::new(&["a.py", "b.py"]);
    host.index(&mut semantic_state(), false).unwrap();
    host.diff = (vec![], vec!["b.py"], vec![]);
    host.failing = Some(Ask::DeleteStaleVectors);
    let err = host.update(&mut semantic_state()).unwrap_err();
    assert_eq!(err.message, "Failed to delete stale vectors");
    assert_eq!(host.status_record.unwrap().vectors_inserted, 2);
}

#[test]
fn every_unreadable_fact_refuses_the_run() {
    let bad = || Err("broken".to_string());
    let cases: Vec<(bool, Vec<Event>, &str)> = vec![
        (
            false,
            vec![Event::Collection(bad())],
            "Failed to check for an existing vector collection",
        ),
        (
            false,
            vec![Event::Collection(Ok(false)), Event::BackendRecord(Err("broken".to_string()))],
            "Failed to read backend provenance record",
        ),
        (
            true,
            vec![Event::BackendRecord(Err("broken".to_string()))],
            "Failed to read backend provenance record",
        ),
        (
            true,
            vec![Event::BackendRecord(Ok(None)), Event::Walked(Err("broken".to_string()))],
            "Failed to walk codebase",
        ),
        (
            true,
            vec![
                Event::BackendRecord(Ok(None)),
                Event::Walked(Ok(Vec::new())),
                Event::Manifest(Err("broken".to_string())),
            ],
            "Failed to load index manifest",
        ),
        (
            true,
            vec![
                Event::BackendRecord(Ok(None)),
                Event::Walked(Ok(Vec::new())),
                Event::Manifest(Ok(ManifestState::Compatible)),
                Event::Compared(Err("broken".to_string())),
            ],
            "Failed to diff index manifest",
        ),
    ];
    for (embeddings, events, message) in cases {
        let mut state = if embeddings { semantic_state() } else { lexical_state() };
        let previous = IndexStatus {
            vectors_inserted: 0,
            ..recorded()
        };
        let (mut run, _) = index_codebase(&mut state, &location(), false, Some(previous)).unwrap();
        let mut last = Persist::Keep;
        for event in events {
            assert_eq!(last, Persist::Keep);
            last = run.advance(&mut state, event);
        }
        // The record on disk goes back to what it was.
        assert_eq!(last, Persist::Write(previous));
        let err = run.finish(0).unwrap().unwrap_err();
        assert_eq!(err.message, message);
        assert_eq!(err.cause.as_deref(), Some("broken"));
        assert_eq!(state.get_status().status, IndexState::Failed);
    }
}

#[test]
fn refusals_name_the_codebase() {
    let mut host = Host::new(&["main.py"]);
    host.has_collection = Ok(true);
    let err = host.index(&mut lexical_state(), false).unwrap_err();
    let name = location().collection_name();
    assert_eq!(
        err.message,
        format!(
            "A semantic index exists for /repo (collection {name}, a recorded vector count, or a \
             backend provenance record) but embeddings are disabled; set EMBEDDING_URL (and \
             MILVUS_URL if the vectors live in Milvus) to keep it current, or clear the index \
             before lexical-only indexing"
        )
    );
}

#[test]
fn stray_reports_are_ignored() {
    let (mut control, _) =
        RunControl::start(Mode::Index, true, IndexStatus::default(), None).unwrap();
    let before = control;
    assert_eq!(control.advance(Signal::Chunked(3)), Persist::Keep);
    assert_eq!(control.advance(Signal::BatchFailed), Persist::Keep);
    assert_eq!(control, before);
    assert_eq!(control.phase, Phase::BackendGate);
}

#[test]
fn every_tenth_file_is_progress() {
    let mut state = lexical_state();
    let (mut run, _) = index_codebase(&mut state, &location(), true, None).unwrap();
    for event in [
        Event::Collection(Ok(false)),
        Event::BackendRecord(Ok(None)),
        Event::Walked(Ok(files(&["a", "b"]))),
        Event::Manifest(Ok(ManifestState::Absent)),
        Event::Done(Ok(())),
    ] {
        run.advance(&mut state, event);
    }
    assert_eq!(run.ask(), Ask::SplitFiles);
    assert_eq!(run.advance(&mut state, Event::FileSplit(9)), Persist::Keep);
    assert!(matches!(
        run.advance(&mut state, Event::FileSplit(10)),
        Persist::Write(_)
    ));
    assert_eq!(state.get_status().processed_files, 10);
    assert!(run.finish(0).is_none());
}

#[test]
fn batches_that_would_overflow_cannot_be_counted() {
    let mut state = semantic_state();
    let (mut run, _) = index_codebase(&mut state, &location(), true, None).unwrap();
    for event in [
        Event::BackendRecord(Ok(None)),
        Event::Walked(Ok(files(&["a"]))),
        Event::Manifest(Ok(ManifestState::Absent)),
        Event::Collection(Ok(false)),
        Event::Collection(Ok(true)),
        Event::Done(Ok(())),
        Event::Split(vec![Ok(vec![chunk("a")])]),
    ] {
        run.advance(&mut state, event);
    }
    let one = || {
        Event::Batch(BatchReport::Stored {
            embedded: 1,
            inserted: usize::MAX,
            warnings: Vec::new(),
        })
    };
    assert!(run.can_count(&one()));
    run.advance(&mut state, one());
    assert!(!run.can_count(&one()));
}

#[test]
fn evidence_is_that_of_before_unless_rebuilt() {
    assert_eq!(failure_evidence(true, Some(recorded())), None);
    assert_eq!(failure_evidence(false, Some(recorded())), Some(recorded()));
    assert_eq!(failure_evidence(false, None), None);
    assert_eq!(checked_vector_row_count(17), 17);
}

#[test]
fn concurrency_is_at_least_one() {
    let store = || VectorStore::Local(LocalStore::new());
    assert_eq!(lexical_state().concurrency, 16);
    assert_eq!(IndexerState::with_concurrency(true, store(), 4, 0).concurrency, 1);
    assert_eq!(IndexerState::with_concurrency(true, store(), 4, 3).concurrency, 3);
    assert_eq!(lexical_state().get_status(), IndexStatus::default());
}

#[test]
fn skipped_chunks_leave_the_run_completed() {
    let mut host = Host::new(&["bad.py", "good.py"]);
    host.batches = vec![BatchReport::Stored {
        embedded: 1,
        inserted: 1,
        warnings: names(&["Skipped embedding for bad.py:1-2: input too large"]),
    }];
    let mut state = semantic_state();
    let result = host.index(&mut state, true).unwrap();
    assert!(result.chunks_created >= 2);
    assert!(result.embeddings_generated > 0);
    assert!(result.embeddings_generated < result.chunks_created);
    assert_eq!(result.vectors_inserted, result.embeddings_generated);
    assert!(result
        .warnings
        .iter()
        .any(|warning| warning.contains("Skipped embedding for bad.py")));
    assert_eq!(state.get_status().status, IndexState::Completed);
}

#[test]
fn a_cleared_index_is_built_anew() {
    let mut host = Host::new(&["a.py", "b.py"]);
    host.index(&mut lexical_state(), false).unwrap();
    // What clearing leaves: no manifest, no status record, an empty lexical index.
    host.manifest = ManifestState::Absent;
    host.status_record = None;
    assert!(host.update(&mut lexical_state()).is_err());
    let result = host.index(&mut lexical_state(), false).unwrap();
    assert_eq!(result.files_processed, 2);
}

#[test]
fn an_unchanged_codebase_keeps_its_record() {
    for embeddings in [false, true] {
        let state = || if embeddings { semantic_state() } else { lexical_state() };
        let mut host = Host::new(&["a.py", "b.py"]);
        host.index(&mut state(), true).unwrap();
        let record = host.status_record;
        if !embeddings {
            host.has_collection = Ok(false);
        }
        for update in [false, true] {
            let result = if update {
                host.update(&mut state()).unwrap()
            } else {
                host.index(&mut state(), false).unwrap()
            };
            assert_eq!(result.warnings, ["already up to date"]);
            assert_eq!(result.vectors_inserted, record.unwrap().vectors_inserted);
            assert_eq!(host.status_record, record);
        }
    }
}

#[test]
fn counts_are_the_sums_of_the_batches() {
    let stored = |embedded, inserted| BatchReport::Stored {
        embedded,
        inserted,
        warnings: Vec::new(),
    };
    let mut host = Host::new(&["a.py", "b.py", "c.py", "d.py", "e.py", "f.py"]);
    host.batches = vec![stored(2, 1), stored(3, 3), stored(0, 0)];
    let result = host.index(&mut semantic_state(), false).unwrap();
    assert_eq!(result.embeddings_generated, 5);
    assert_eq!(result.vectors_inserted, 4);
    assert!(result.embeddings_generated <= result.chunks_created);
}
