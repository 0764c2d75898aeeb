use rust_indexer::config::Config;
use rust_indexer::path::HostPath;
use rust_indexer::vectordb::local::{ChunkMeta, Collection, InsertRow, LocalDoc, LocalStore};
use rust_indexer::vectordb::ranking::rank;
use rust_indexer::vectordb::store::{
    hits_from_milvus, MilvusClient, MilvusHit, MilvusRequest, StoreStep, VectorStore,
};

fn meta(relative_path: &str) -> ChunkMeta {
    ChunkMeta {
        file_path: HostPath::empty(),
        relative_path: relative_path.to_string(),
        start_line: 0,
        end_line: 0,
        language: String::new(),
    }
}

fn bits(numbers: &[f32]) -> Vec<u32> {
    numbers.iter().map(|number| number.to_bits()).collect()
}

fn doc(id: &str, relative_path: &str) -> LocalDoc {
    LocalDoc {
        id: id.to_string(),
        content: format!("content of {id}"),
        vector: bits(&[1.0, 0.0]),
        metadata: meta(relative_path),
    }
}

type StoredMeta = (String, String, u32, u32, String);
type StoredDoc = (String, String, Vec<f32>, StoredMeta);

/// The bytes of a collection's file.
fn to_file(collection: &Collection) -> Vec<u8> {
    let docs: Vec<StoredDoc> = collection
        .docs
        .iter()
        .map(|doc| {
            (
                doc.id.clone(),
                doc.content.clone(),
                doc.vector.iter().map(|bits| f32::from_bits(*bits)).collect(),
                (
                    doc.metadata.file_path.to_text(),
                    doc.metadata.relative_path.clone(),
                    doc.metadata.start_line,
                    doc.metadata.end_line,
                    doc.metadata.language.clone(),
                ),
            )
        })
        .collect();
    bincode::serialize(&(collection.dimension, docs)).unwrap()
}

fn from_file(data: &[u8]) -> Collection {
    let (dimension, docs): (usize, Vec<StoredDoc>) = bincode::deserialize(data).unwrap();
    Collection {
        dimension,
        docs: docs
            .into_iter()
            .map(|(id, content, vector, metadata)| LocalDoc {
                id,
                content,
                vector: bits(&vector),
                metadata: ChunkMeta {
                    file_path: HostPath::from_text(&metadata.0),
                    relative_path: metadata.1,
                    start_line: metadata.2,
                    end_line: metadata.3,
                    language: metadata.4,
                },
            })
            .collect(),
    }
}

#[test]
fn test_local_store_crud() {
    let mut store = LocalStore::new();
    let name = "test_collection";

    assert!(!store.has_collection(name, false));
    store.create_collection(name, 3);
    assert!(store.has_collection(name, true));

    assert!(store.insert_rows(
        name,
        &["id1".to_string()],
        &["hello world".to_string()],
        &[bits(&[1.0, 0.0, 0.0])],
        &[meta("src/lib.rs")],
        None,
    ));

    let results = store.search(name, &bits(&[1.0]), 5);
    assert_eq!(results.len(), 1);
    assert_eq!(results[0].content, "hello world");

    store.drop_collection(name);
    assert!(!store.has_collection(name, false));
}

#[test]
fn test_persistence_round_trips_binary_format() {
    let mut store = LocalStore::new();
    let name = "test_collection";
    store.create_collection(name, 2);
    assert!(store.insert_rows(
        name,
        &["a".to_string()],
        &["fn alpha() {}".to_string()],
        &[bits(&[0.5, 0.5])],
        &[meta("src/a.rs")],
        None,
    ));
    let file = to_file(store.collection(name).unwrap());

    // A fresh store must read the persisted collection from disk.
    let mut fresh = LocalStore::new();
    assert_eq!(fresh.collection_size(name, Some(&from_file(&file))), 1);
    assert!(fresh.load(name, Some(from_file(&file))));
    let results = fresh.search(name, &bits(&[1.0]), 5);
    assert_eq!(results.len(), 1);
    assert_eq!(results[0].content, "fn alpha() {}");

    assert!(fresh.delete_by_filter(name, &["src/a.rs".to_string()], None));
    let file = to_file(fresh.collection(name).unwrap());
    assert_eq!(LocalStore::new().collection_size(name, Some(&from_file(&file))), 0);
    assert_eq!(from_file(&file).dimension, 2);

    fresh.drop_collection(name);
    assert_eq!(fresh.collection_size(name, None), 0);
}

#[test]
fn searching_gives_the_best_first() {
    let mut store = LocalStore::new();
    let docs = vec![doc("a", "a.rs"), doc("b", "b.rs"), doc("c", "c.rs"), doc("d", "d.rs")];
    assert!(store.insert_docs("repo", docs, None));
    let scores = bits(&[0.25, -1.0, 0.5, 0.25]);
    let ids: Vec<String> = store
        .search("repo", &scores, 3)
        .into_iter()
        .map(|hit| hit.id)
        .collect();
    assert_eq!(ids, ["c", "a", "d"]);
    let hits = store.search("repo", &scores, 10);
    assert_eq!(hits.len(), 4);
    assert_eq!(f32::from_bits(hits[3].score), -1.0);
    assert!(store.search("repo", &scores, 0).is_empty());
    assert!(store.search("other", &[], 3).is_empty());
}

#[test]
fn ranking_orders_numbers_and_keeps_ties() {
    let scores = bits(&[0.0, -0.0, 2.5, -2.5, f32::MIN_POSITIVE, 2.5]);
    assert_eq!(rank(&scores, 10), [2, 5, 4, 0, 1, 3]);
    assert_eq!(rank(&scores, 2), [2, 5]);
}

#[test]
fn inserting_nothing_writes_nothing() {
    let mut store = LocalStore::new();
    assert!(!store.insert_docs("repo", Vec::new(), None));
    assert!(!store.is_cached("repo"));
    assert!(!store.insert_rows("repo", &["a".to_string()], &[], &[], &[], None));
    assert!(!store.is_cached("repo"));
}

#[test]
fn inserting_extends_what_is_on_disk() {
    let mut store = LocalStore::new();
    let stored = Collection {
        dimension: 2,
        docs: vec![doc("old", "old.rs")],
    };
    assert!(store.insert_docs("repo", vec![doc("new", "new.rs")], Some(stored)));
    let collection = store.collection("repo").unwrap();
    assert_eq!(collection.dimension, 2);
    assert_eq!(collection.docs.len(), 2);
    assert_eq!(collection.docs[0].id, "old");
    assert_eq!(collection.docs[1].id, "new");
}

#[test]
fn deleting_files_undoes_their_insertion() {
    let mut store = LocalStore::new();
    store.insert_docs("repo", vec![doc("a", "a.rs"), doc("b", "b.rs")], None);
    store.insert_docs("repo", vec![doc("c", "c.rs"), doc("d", "d.rs")], None);
    let paths = ["c.rs".to_string(), "d.rs".to_string(), "x.rs".to_string()];
    assert!(store.delete_by_filter("repo", &paths, None));
    let ids: Vec<&str> = store.collection("repo").unwrap().docs.iter().map(|doc| doc.id.as_str()).collect();
    assert_eq!(ids, ["a", "b"]);
    assert!(!store.delete_by_filter("other", &paths, None));
}

#[test]
fn names_in_memory_and_on_disk_are_listed_once() {
    let mut store = LocalStore::new();
    store.create_collection("b", 1);
    store.create_collection("a", 1);
    let on_disk = ["a".to_string(), "c".to_string(), "c".to_string()];
    assert_eq!(store.list_collections(&on_disk), ["b", "a", "c"]);
    store.create_collection("b", 7);
    assert_eq!(store.list_collections(&[]), ["b", "a"]);
    assert_eq!(store.collection("b").unwrap().dimension, 7);
}

fn config(milvus_url: &str) -> Config {
    Config {
        embedding_url: String::new(),
        embedding_dimension: 4,
        milvus_url: milvus_url.to_string(),
        milvus_token: Some("t".to_string()),
        concurrency: 2,
        chunk_size: 512,
        chunk_overlap: 240,
    }
}

#[test]
fn backends_are_named_by_their_address() {
    assert_eq!(VectorStore::from_config(&config("")).provenance(), "local");
    let store = VectorStore::from_config(&config("http://host:19530//"));
    assert_eq!(store.provenance(), "milvus http://host:19530");
    if let VectorStore::Milvus(client) = &store {
        assert_eq!(client.token(), Some("t"));
    } else {
        panic!("expected a server");
    }
}

fn row(id: &str) -> InsertRow {
    InsertRow {
        id: id.to_string(),
        content: "text".to_string(),
        vector: bits(&[0.5]),
        metadata: meta("a.rs"),
    }
}

#[test]
fn local_operations_end_with_a_write() {
    let mut store = VectorStore::from_config(&config(""));
    assert!(matches!(store.create_collection("repo", 4), StoreStep::Write { .. }));
    assert!(matches!(store.has_collection("repo"), StoreStep::Done));
    assert!(matches!(store.has_collection("other"), StoreStep::Look { .. }));
    let (inserted, step) = store.insert_batch("repo", &[row("a"), row("b")], None);
    assert_eq!(inserted, Some(2));
    assert!(matches!(step, StoreStep::Write { .. }));
    let (inserted, step) = store.insert_batch("repo", &[], None);
    assert_eq!(inserted, Some(0));
    assert!(matches!(step, StoreStep::Done));
    assert_eq!(store.collection_stats("repo").unwrap().row_count, 2);
    assert!(matches!(store.search("repo", 3), StoreStep::Read { .. }));
    assert!(matches!(store.list_collections(), StoreStep::ListFiles));
    assert!(matches!(
        store.delete_by_relative_paths("repo", &["a.rs".to_string()], None),
        StoreStep::Write { .. }
    ));
    assert_eq!(store.collection_stats("repo").unwrap().row_count, 0);
    assert!(matches!(
        store.delete_by_relative_paths("repo", &[], None),
        StoreStep::Done
    ));
    assert!(matches!(store.drop_collection("repo"), StoreStep::Remove { .. }));
    assert!(matches!(store.collection_stats("repo"), Err(StoreStep::Read { .. })));
}

#[test]
fn server_operations_are_requests() {
    let mut store = VectorStore::Milvus(MilvusClient::new("http://host", None));
    assert!(matches!(
        store.create_collection("repo", 4),
        StoreStep::Ask { request: MilvusRequest::Create { dimension: 4, .. } }
    ));
    assert!(matches!(
        store.has_collection("repo"),
        StoreStep::Ask { request: MilvusRequest::Has { .. } }
    ));
    let (inserted, step) = store.insert_batch("repo", &[row("a"), row("b")], None);
    assert_eq!(inserted, None);
    match step {
        StoreStep::Ask { request: MilvusRequest::Insert { collection, rows } } => {
            assert_eq!(collection, "repo");
            let ids: Vec<&str> = rows.iter().map(|row| row.id.as_str()).collect();
            assert_eq!(ids, ["a", "b"]);
            assert_eq!(rows[1].vector, bits(&[0.5]));
            assert_eq!(rows[1].metadata.relative_path, "a.rs");
        }
        other => panic!("{other:?}"),
    }
    assert!(matches!(
        store.search("repo", 3),
        StoreStep::Ask { request: MilvusRequest::Search { top_k: 3, .. } }
    ));
    assert!(matches!(
        store.list_collections(),
        StoreStep::Ask { request: MilvusRequest::List }
    ));
    assert!(matches!(
        store.collection_stats("repo"),
        Err(StoreStep::Ask { request: MilvusRequest::Stats { .. } })
    ));
    match store.delete_by_relative_paths("repo", &["a \"b\".rs".to_string()], None) {
        StoreStep::Ask { request: MilvusRequest::Delete { collection, filter } } => {
            assert_eq!(collection, "repo");
            assert_eq!(filter, "metadata[\"relative_path\"] in [\"a \\\"b\\\".rs\"]");
        }
        other => panic!("{other:?}"),
    }
    assert!(matches!(
        store.drop_collection("repo"),
        StoreStep::Ask { request: MilvusRequest::Drop { .. } }
    ));
}

#[test]
fn metadata_in_another_layout_becomes_empty() {
    let hits = hits_from_milvus(vec![
        MilvusHit {
            id: "1".to_string(),
            score: 0.5f32.to_bits(),
            content: "x".to_string(),
            metadata: Some(meta("a.rs")),
        },
        MilvusHit {
            id: "2".to_string(),
            score: 0.25f32.to_bits(),
            content: "y".to_string(),
            metadata: None,
        },
    ]);
    assert_eq!(hits[0].metadata.relative_path, "a.rs");
    assert_eq!(hits[1].id, "2");
    assert_eq!(hits[1].metadata.relative_path, "");
    assert!(hits[1].metadata.file_path.is_empty());
}
