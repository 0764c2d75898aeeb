use rust_indexer::engine::manifest::{compare_files, BackendRecord, Fingerprint};

fn files(items: &[(&str, &str)]) -> Vec<Fingerprint> {
    items
        .iter()
        .map(|(path, digest)| Fingerprint {
            relative_path: path.to_string(),
            sha256: digest.to_string(),
        })
        .collect()
}

#[test]
fn changes_are_sorted_into_three_lists() {
    let before = files(&[("a", "1"), ("b", "2"), ("c", "3")]);
    let now = files(&[("d", "4"), ("b", "5"), ("a", "1"), ("e", "3")]);
    let diff = compare_files(&before, &now);
    assert_eq!(diff.added, ["d", "e"]);
    assert_eq!(diff.modified, ["b"]);
    assert_eq!(diff.deleted, ["c"]);
    assert!(!diff.is_empty());
}

#[test]
fn unchanged_files_compare_empty() {
    let before = files(&[("a", "1"), ("b", "2")]);
    assert!(compare_files(&before, &files(&[("b", "2"), ("a", "1")])).is_empty());
    assert!(compare_files(&[], &[]).is_empty());
    assert_eq!(compare_files(&before, &[]).deleted, ["a", "b"]);
    assert_eq!(compare_files(&[], &before).added, ["a", "b"]);
}

#[test]
fn test_sibling_manifest_rewrite_invalidates_backend_record() {
    let manifest = b"{\"files\":[{\"relative_path\":\"main.py\",\"sha256\":\"1f\"}]}".to_vec();
    let record = BackendRecord::new("local", &manifest);
    assert_eq!(record.backend_for(&manifest).as_deref(), Some("local"));

    // A tool that does not know of the record rewrites the manifest: the record
    // must stop authenticating.
    let rewritten = String::from_utf8(manifest)
        .unwrap()
        .replace("1f", "rewritten-by-sibling");
    assert_eq!(record.backend_for(rewritten.as_bytes()), None);
}

#[test]
fn a_record_holds_the_digest_of_its_manifest() {
    let record = BackendRecord::new("milvus http://m", b"abc");
    assert_eq!(
        record.manifest_sha256,
        "ba7816bf8f01cfea414140de5dae2223b00361a396177a9cb410ff61f20015ad"
    );
    assert_eq!(record.backend_for_digest("other"), None);
    assert_eq!(
        record.backend_for_digest(&record.manifest_sha256).as_deref(),
        Some("milvus http://m")
    );
}
