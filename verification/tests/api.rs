use rust_indexer::api::{
    complete_lexical_hit, conclude, present_hits, restrict_hits, settle_status, validate_directory, ClearStep,
    CollectionInfo, HybridHit, IndexResult, Indexer, SearchHit,
};
use rust_indexer::config::Config;
use rust_indexer::engine::control::Ask;
use rust_indexer::engine::indexer::{Event, IndexError};
use rust_indexer::engine::status::Persist;
use rust_indexer::path::HostPath;
use rust_indexer::report::{
    cleared_text, collection_lines, content_lines, hit_line, index_summary, status_text,
    update_summary, warning_line,
};
use rust_indexer::types::{CodeChunk, IndexState, IndexStatus};
use rust_indexer::vectordb::local::LocalStore;
use rust_indexer::vectordb::naming::{CollectionScope, Location};
use rust_indexer::vectordb::store::{MilvusClient, VectorStore};

fn config() -> Config {
    Config {
        embedding_url: String::new(),
        embedding_dimension: 384,
        milvus_url: String::new(),
        milvus_token: None,
        concurrency: 0,
        chunk_size: 512,
        chunk_overlap: 250,
    }
}

fn local(embeddings: bool) -> Indexer {
    Indexer::with_components(config(), embeddings, VectorStore::Local(LocalStore::new()))
}

fn root() -> HostPath {
    HostPath::from_text("/repo")
}

fn location() -> Location {
    Location {
        path: root(),
        canonical_path: None,
        scope: CollectionScope {
            identity: None,
            root: None,
        },
        canonical_root: None,
    }
}

fn recorded() -> IndexStatus {
    IndexStatus {
        total_files: 1,
        processed_files: 1,
        total_chunks: 3,
        embeddings_generated: 3,
        vectors_inserted: 3,
        status: IndexState::Completed,
    }
}

#[test]
fn test_api_run_preserves_remote_vector_evidence() {
    let mut api = local(false);
    let mut on_disk = Some(recorded());
    for _ in 0..2 {
        let mut begun = api.index(&location(), true, true, false, on_disk).unwrap();
        assert!(api.is_indexing(&root()));
        let mut persist = begun.persist;
        loop {
            match persist {
                Persist::Keep => {}
                Persist::Write(status) => on_disk = Some(status),
                Persist::Remove => on_disk = None,
            }
            let event = match begun.run.ask() {
                Ask::HasCollection => Event::Collection(Ok(false)),
                Ask::ReadBackendRecord => Event::BackendRecord(Ok(None)),
                Ask::Nothing => break,
                other => panic!("{other:?}"),
            };
            persist = begun.run.advance(&mut begun.state, event);
        }
        assert!(api.mirror(&root(), begun.state.get_status()));
        let err = conclude(begun.run.finish(1).unwrap()).unwrap_err();
        assert_eq!(err.message, "indexing failed");
        assert!(err.cause.unwrap().contains("embeddings are disabled"));
    }
    let persisted = on_disk.unwrap();
    assert_eq!(persisted.vectors_inserted, 3);
    assert_eq!(persisted.status, IndexState::Completed);
}

#[test]
fn test_clear_refuses_when_recorded_vectors_are_invisible() {
    let api = local(false);

    // No collection visible to the configured (local) backend: refuse.
    let err = api
        .clear(&root(), false, None, Some(recorded()), None)
        .unwrap_err();
    assert!(err.contains("cannot"));

    // A same-named but underfilled local collection is not sufficient
    // evidence: the recorded vectors may live in a backend we cannot see.
    assert!(api
        .clear(&root(), true, None, Some(recorded()), Some(0))
        .is_err());
    assert!(api
        .clear(&root(), true, None, Some(recorded()), None)
        .is_err());

    // Once the visible collection holds the recorded count, clear works.
    assert_eq!(
        api.clear(&root(), true, None, Some(recorded()), Some(3)).unwrap(),
        [
            ClearStep::DropCollection,
            ClearStep::ResetStatus,
            ClearStep::RemoveManifest,
            ClearStep::RemoveBackendRecord,
            ClearStep::ForgetStatus,
            ClearStep::ClearLexical,
        ]
    );
}

#[test]
fn test_clear_refuses_backend_mismatch_even_with_zero_vectors() {
    let api = local(false);
    let err = api
        .clear(&root(), false, Some("milvus http://elsewhere:19530"), None, None)
        .unwrap_err();
    assert!(err.contains("vector backend"));

    // With the record gone (backend reconfigured or manually removed),
    // clear proceeds.
    let steps = api.clear(&root(), false, None, None, None).unwrap();
    assert!(steps.contains(&ClearStep::RemoveManifest));
    assert!(!steps.contains(&ClearStep::DropCollection));
}

#[test]
fn test_search_skips_semantic_on_backend_mismatch() {
    let api = local(true);
    let plan = api
        .search(&location(), true, true, 5, Some("milvus http://elsewhere:19530"))
        .unwrap();
    assert!(!plan.semantic);
    assert_eq!(plan.collection, location().collection_name());
    assert!(api.search(&location(), true, true, 5, Some("local")).unwrap().semantic);
    assert!(api.search(&location(), true, true, 5, None).unwrap().semantic);
    assert!(!local(false).search(&location(), true, true, 5, None).unwrap().semantic);
}

#[test]
fn a_server_shows_its_vectors_by_its_collection() {
    let api = Indexer::with_components(
        config(),
        true,
        VectorStore::Milvus(MilvusClient::new("http://h", None)),
    );
    assert!(api.clear(&root(), true, None, Some(recorded()), None).is_ok());
    assert!(api.clear(&root(), false, None, Some(recorded()), None).is_err());
    assert!(api
        .clear(&root(), true, Some("milvus http://h"), Some(recorded()), None)
        .is_ok());
    assert!(api.clear(&root(), true, Some("local"), None, None).is_err());
}

#[test]
fn clearing_tells_which_step_failed() {
    assert_eq!(
        ClearStep::RemoveManifest.failure_context(),
        Some("failed to remove index manifest")
    );
    assert_eq!(
        ClearStep::ClearLexical.failure_context(),
        Some("failed to clear lexical index")
    );
    assert_eq!(ClearStep::DropCollection.failure_context(), None);
    assert!(ClearStep::ResetStatus.is_best_effort());
    assert!(ClearStep::RemoveBackendRecord.is_best_effort());
    assert!(!ClearStep::DropCollection.is_best_effort());
    assert!(!ClearStep::ClearLexical.is_best_effort());
}

#[test]
fn directories_are_checked() {
    assert_eq!(
        validate_directory(&HostPath::from_text("repo"), true, true),
        Err("path must be absolute: repo".to_string())
    );
    assert_eq!(
        validate_directory(&root(), false, false),
        Err("path does not exist: /repo".to_string())
    );
    assert_eq!(
        validate_directory(&root(), true, false),
        Err("path is not a directory: /repo".to_string())
    );
    assert_eq!(validate_directory(&root(), true, true), Ok(()));
}

#[test]
fn a_search_needs_a_limit() {
    assert_eq!(
        local(false).search(&location(), true, true, 0, None).unwrap_err(),
        "limit must be greater than 0"
    );
    assert_eq!(
        local(false).search(&location(), false, false, 0, None).unwrap_err(),
        "path does not exist: /repo"
    );
}

#[test]
fn one_run_at_a_time() {
    let mut api = local(false);
    let begun = api.update(&location(), true, true, None).unwrap();
    assert_eq!(begun.splitter.max_chunk_bytes, 512);
    assert_eq!(begun.splitter.overlap_lines, 3);
    assert_eq!(begun.state.concurrency, 1);
    assert_eq!(begun.state.embedding_dimension, 384);
    assert_eq!(
        api.update(&location(), true, true, None).unwrap_err(),
        "Indexing is already running for /repo. Use force to rebuild."
    );
    assert!(api.index(&location(), true, true, false, None).is_err());
    assert!(api.index(&location(), true, true, true, None).is_ok());
    assert_eq!(
        api.index(&location(), true, false, true, None).unwrap_err(),
        "path is not a directory: /repo"
    );
}

#[test]
fn a_status_is_that_of_this_process_first() {
    let mut api = local(false);
    assert_eq!(api.status(&root(), None), IndexStatus::default());
    assert_eq!(api.status(&root(), Some(recorded())), recorded());
    api.reset_status(&root());
    assert_eq!(api.status(&root(), Some(recorded())), IndexStatus::default());
    assert!(!api.mirror(&root(), IndexStatus::of(IndexState::Indexing)));
    assert!(api.is_indexing(&root()));
    // The idle state of a run that has not begun is not shown.
    assert!(!api.mirror(&root(), IndexStatus::default()));
    assert!(api.is_indexing(&root()));
    assert!(api.mirror(&root(), recorded()));
    assert!(!api.is_indexing(&HostPath::from_text("/other")));
    assert_eq!(api.status(&root(), None), recorded());
    api.forget_status(&root());
    assert_eq!(api.status(&root(), None), IndexStatus::default());
}

#[test]
fn a_configuration_names_the_components() {
    let mut with_urls = config();
    with_urls.embedding_url = "http://e".to_string();
    with_urls.milvus_url = "http://m/".to_string();
    let api = Indexer::new(with_urls);
    assert!(api.embeddings_enabled);
    assert_eq!(api.vector_store.provenance(), "milvus http://m");
    let api = Indexer::new(config());
    assert!(!api.embeddings_enabled);
    assert_eq!(api.vector_store.provenance(), "local");
}

#[test]
fn a_status_left_open_is_ended() {
    let mut status = IndexStatus::of(IndexState::Indexing);
    settle_status(&mut status, true);
    assert_eq!(status.status, IndexState::Completed);
    let mut status = IndexStatus::of(IndexState::Indexing);
    settle_status(&mut status, false);
    assert_eq!(status.status, IndexState::Failed);
    settle_status(&mut status, true);
    assert_eq!(status.status, IndexState::Failed);
}

#[test]
fn errors_are_told_with_their_cause() {
    let told = conclude(Err(IndexError {
        message: "Failed to walk codebase".to_string(),
        cause: Some("no such directory".to_string()),
    }))
    .unwrap_err();
    assert_eq!(told.message, "indexing failed");
    assert_eq!(
        told.cause.as_deref(),
        Some("Failed to walk codebase: no such directory")
    );
}

fn hit(file_path: &str, relative_path: &str) -> HybridHit {
    HybridHit {
        chunk: CodeChunk {
            id: "1".to_string(),
            content: "a\r\nb\n\nc".to_string(),
            file_path: HostPath::from_text(file_path),
            relative_path: relative_path.to_string(),
            start_line: 4,
            end_line: 6,
            language: "rust".to_string(),
        },
        score: 0.5f32.to_bits(),
    }
}

#[test]
fn hits_are_shown_in_the_checkout() {
    let hits = present_hits(
        &root(),
        vec![hit("/elsewhere/a.rs", "a.rs"), hit("/elsewhere/b.rs", ""), hit("", "sub/c.rs")],
    );
    let paths: Vec<String> = hits.iter().map(|hit| hit.file_path.to_text()).collect();
    assert_eq!(paths, ["/repo/a.rs", "/elsewhere/b.rs", "/repo/sub/c.rs"]);
    assert_eq!(f32::from_bits(hits[0].score), 0.5);
    assert_eq!(hits[2].relative_path, "sub/c.rs");
}

#[test]
fn lexical_hits_get_a_path() {
    let mut bare = hit("", "a.rs");
    complete_lexical_hit(&root(), &mut bare);
    assert_eq!(bare.chunk.file_path.to_text(), "/repo/a.rs");
    let mut known = hit("/x/a.rs", "a.rs");
    complete_lexical_hit(&root(), &mut known);
    assert_eq!(known.chunk.file_path.to_text(), "/x/a.rs");
}

#[test]
fn collections_are_listed_with_their_rows() {
    let infos = Indexer::list_collections(
        vec!["a".to_string(), "b".to_string()],
        &[Some(4), None],
    );
    assert_eq!(collection_lines(&infos), ["a  (4 rows)", "b  (0 rows)"]);
    assert_eq!(collection_lines(&[]), ["No collections."]);
    let more: Vec<CollectionInfo> = Indexer::list_collections(Vec::new(), &[]);
    assert!(more.is_empty());
}

fn result(lexical_only: bool) -> IndexResult {
    IndexResult {
        files_indexed: 2,
        chunks_created: 15,
        lexical_only,
        duration_ms: 120,
        warnings: Vec::new(),
    }
}

#[test]
fn summaries_are_one_line() {
    assert_eq!(
        index_summary(&result(true)),
        "Indexed 2 files into 15 chunks in 120ms (lexical-only)"
    );
    assert_eq!(
        index_summary(&result(false)),
        "Indexed 2 files into 15 chunks in 120ms"
    );
    assert_eq!(
        update_summary(&result(true)),
        "Updated 2 files (15 chunks) in 120ms (lexical-only)"
    );
    assert_eq!(warning_line("slow"), "warning: slow");
}

#[test]
fn a_status_is_printed_in_lines() {
    assert_eq!(
        status_text(&recorded()),
        format!(
            "state: {:?}\nfiles: 1/1\nchunks: 3\nembeddings: 3\nvectors: 3",
            IndexState::Completed
        )
    );
    for state in [IndexState::Idle, IndexState::Indexing, IndexState::Failed] {
        assert!(status_text(&IndexStatus::of(state)).starts_with(&format!("state: {state:?}\n")));
    }
    assert_eq!(cleared_text(&root(), false), "Cleared index for /repo");
    assert_eq!(cleared_text(&root(), true), "{\"cleared\": true}");
}

#[test]
fn hits_are_printed_with_their_lines() {
    let hits: Vec<SearchHit> = present_hits(&root(), vec![hit("", "a.rs")]);
    assert_eq!(
        hit_line(&hits[0], &format!("{:.4}", f32::from_bits(hits[0].score))),
        "a.rs:4-6  [0.5000] rust"
    );
    for text in ["", "a", "a\n", "a\r\nb", "a\rb\r", "\n\n", "\r\n", "x\n\ry\n"] {
        let expected: Vec<String> = text.lines().map(|line| format!("  {line}")).collect();
        assert_eq!(content_lines(text), expected, "{text:?}");
    }
    assert_eq!(content_lines(&hits[0].content), ["  a", "  b", "  ", "  c"]);
}

#[test]
fn a_path_is_known_by_its_components() {
    let mut api = local(false);
    let spelled = |text: &str| Location {
        path: HostPath::from_text(text),
        ..location()
    };
    api.index(&location(), true, true, false, None).unwrap();
    for text in ["/repo/", "//repo", "/repo/.", "/./repo"] {
        assert!(api.is_indexing(&HostPath::from_text(text)), "{text}");
        assert!(api.index(&spelled(text), true, true, false, None).is_err());
    }
    for text in ["/repo/..", "/rep", "/repo/a", "repo"] {
        assert!(!api.is_indexing(&HostPath::from_text(text)), "{text}");
    }
    api.forget_status(&HostPath::from_text("/repo//"));
    assert!(!api.is_indexing(&root()));
}

#[test]
fn a_run_takes_the_configured_token() {
    let mut with_server = config();
    with_server.milvus_url = "http://m".to_string();
    with_server.milvus_token = Some("t".to_string());
    let mut api = Indexer::new(with_server);
    let begun = api.index(&location(), true, true, false, None).unwrap();
    for store in [&api.vector_store, &begun.state.vector_store] {
        match store {
            VectorStore::Milvus(client) => assert_eq!(client.token(), Some("t")),
            VectorStore::Local(_) => panic!("expected a server"),
        }
    }
}

#[test]
fn hits_are_restricted_in_order() {
    let hits = || {
        vec![
            hit("", "a.rs"),
            hit("", "b.py"),
            hit("", "src/c.rs"),
            hit("", "Makefile"),
            hit("", ".rs"),
            hit("", "d.tar.rs"),
        ]
    };
    let paths = |limit: usize, extensions: &[&str]| -> Vec<String> {
        let extensions: Vec<String> = extensions.iter().map(|name| name.to_string()).collect();
        restrict_hits(hits(), limit, &extensions)
            .into_iter()
            .map(|hit| hit.chunk.relative_path)
            .collect()
    };
    assert_eq!(paths(10, &["rs"]), ["a.rs", "src/c.rs", "d.tar.rs"]);
    assert_eq!(paths(2, &["rs"]), ["a.rs", "src/c.rs"]);
    assert_eq!(paths(10, &["py", "rs"]).len(), 4);
    assert_eq!(paths(3, &[]), ["a.rs", "b.py", "src/c.rs"]);
    assert!(paths(0, &[]).is_empty());
    assert!(paths(10, &["go"]).is_empty());
}
