use rust_indexer::path::HostPath;
use rust_indexer::vectordb::naming::{
    build_relative_path_milvus_filter, collection_name_from_path,
    collection_name_from_path_with_identity, collection_name_with_digest, identity_prefix,
    scoped_collection_identity, text_to_hash, CollectionScope, Location,
};

fn path(text: &str) -> HostPath {
    HostPath::from_text(text)
}

fn scoped(at: &str, identity: Option<&str>, root: Option<&str>) -> Option<String> {
    scoped_collection_identity(&path(at), identity, root, None, None)
}

#[test]
fn test_collection_name_basic() {
    let name = collection_name_from_path_with_identity(&path("/home/user/my-project"), None);
    assert!(name.starts_with("my_project_"));
    assert!(name.len() <= 255);
}

#[test]
fn test_collection_name_numeric_start() {
    let name = collection_name_from_path_with_identity(&path("/home/user/123project"), None);
    assert!(name.starts_with('_'));
}

#[test]
fn test_collection_name_special_chars() {
    let name =
        collection_name_from_path_with_identity(&path("/home/user/my.project-name@v2"), None);
    assert!(!name.contains('.'));
    assert!(!name.contains('-'));
    assert!(!name.contains('@'));
}

#[test]
fn test_collection_name_uniqueness() {
    let name1 = collection_name_from_path_with_identity(&path("/home/user/project"), None);
    let name2 = collection_name_from_path_with_identity(&path("/home/other/project"), None);
    assert_ne!(name1, name2);
}

#[test]
fn test_collection_name_identity_overrides_absolute_path() {
    let mac_name = collection_name_from_path_with_identity(
        &path("/Users/kearm/AlphaHENG"),
        Some("AlphaHENG"),
    );
    let linux_name =
        collection_name_from_path_with_identity(&path("/home/kearm/AlphaHENG"), Some("AlphaHENG"));

    assert_eq!(mac_name, linux_name);
    assert!(mac_name.starts_with("AlphaHENG_"));
}

#[test]
fn test_scoped_identity_keeps_root_stable_across_hosts() {
    let identity = Some("AlphaHENG@nomic768");

    let mac_identity = scoped("/Users/kearm/AlphaHENG", identity, Some("/Users/kearm/AlphaHENG"));
    let linux_identity = scoped("/home/kearm/AlphaHENG", identity, Some("/home/kearm/AlphaHENG"));

    assert_eq!(mac_identity, linux_identity);
    assert_eq!(mac_identity.as_deref(), identity);
}

#[test]
fn test_scoped_identity_namespaces_nested_codebases() {
    let identity = Some("AlphaHENG@nomic768");
    let mac_path = "/Users/kearm/AlphaHENG/contrib/gigatoken";
    let linux_path = "/home/kearm/AlphaHENG/contrib/gigatoken";

    let mac_identity = scoped(mac_path, identity, Some("/Users/kearm/AlphaHENG"));
    let linux_identity = scoped(linux_path, identity, Some("/home/kearm/AlphaHENG"));

    assert_eq!(mac_identity, linux_identity);
    assert_eq!(
        mac_identity.as_deref(),
        Some("AlphaHENG@nomic768/contrib/gigatoken")
    );
    let collection =
        collection_name_from_path_with_identity(&path(mac_path), mac_identity.as_deref());
    assert!(collection.starts_with("gigatoken_"));
    assert_eq!(collection, "gigatoken_9fcabc51fc011346");
}

#[test]
fn test_scoped_identity_does_not_escape_configured_root() {
    let identity = scoped(
        "/Users/kearm/PrismML-Bonsai-MLX-Metal",
        Some("AlphaHENG@nomic768"),
        Some("/Users/kearm/AlphaHENG"),
    );

    assert!(identity.is_none());
}

#[test]
fn test_scoped_identity_requires_a_root() {
    let identity = scoped("/Users/kearm/AlphaHENG", Some("AlphaHENG@nomic768"), None);

    assert!(identity.is_none());
}

#[test]
fn test_collection_name_blank_identity_falls_back_to_path() {
    let name1 = collection_name_from_path_with_identity(&path("/home/user/project"), Some("  "));
    let name2 = collection_name_from_path_with_identity(&path("/home/other/project"), Some(""));

    assert_ne!(name1, name2);
}

#[test]
fn names_are_prefix_and_hash() {
    assert_eq!(
        collection_name_from_path_with_identity(&path("/home/user/my-project"), None),
        "my_project_c7e2f75b53b97886"
    );
    assert_eq!(
        collection_name_from_path_with_identity(&path("/home/user/123project"), None),
        "_123project_958a7fb99f78ae85"
    );
    assert_eq!(
        collection_name_from_path_with_identity(&path("/nowhere"), Some(" AlphaHENG ")),
        "AlphaHENG_74e05cdb3a9b623f"
    );
    assert_eq!(
        collection_name_from_path_with_identity(&path("/"), None),
        "collection_8a5edab282632443"
    );
}

#[test]
fn long_names_are_cut_to_fit() {
    let long = format!("/home/{}", "a".repeat(400));
    let name = collection_name_from_path_with_identity(&path(&long), None);
    assert_eq!(name.len(), 255);
    assert!(name.starts_with(&"a".repeat(238)));
    assert_eq!(name.as_bytes()[238], b'_');
}

#[test]
fn letters_beyond_ascii_are_replaced() {
    let name = collection_name_from_path_with_identity(&path("/home/größe"), None);
    assert!(name.starts_with("gr__e_"));
}

#[test]
fn an_identity_gives_its_last_component_as_prefix() {
    assert_eq!(identity_prefix("team/tools").as_deref(), Some("tools"));
    assert_eq!(identity_prefix("team/..").as_deref(), Some("team/.."));
    assert_eq!(identity_prefix("  x  ").as_deref(), Some("x"));
    assert_eq!(identity_prefix(" ").as_deref(), None);
}

#[test]
fn resolved_paths_decide_the_scope() {
    let real = path("/data/AlphaHENG/sub");
    let root = path("/data/AlphaHENG");
    let identity = scoped_collection_identity(
        &path("/link/sub"),
        Some("AlphaHENG"),
        Some("/link"),
        Some(&real),
        Some(&root),
    );
    assert_eq!(identity.as_deref(), Some("AlphaHENG/sub"));
}

#[test]
fn a_location_is_named_by_its_scope() {
    let scope = CollectionScope {
        identity: Some("AlphaHENG@nomic768".to_string()),
        root: Some("/Users/kearm/AlphaHENG".to_string()),
    };
    let at = path("/Users/kearm/AlphaHENG/contrib/gigatoken");
    assert_eq!(
        collection_name_from_path(&at, &scope, None, None),
        "gigatoken_9fcabc51fc011346"
    );
    let location = Location {
        path: at,
        canonical_path: None,
        scope,
        canonical_root: None,
    };
    assert_eq!(location.collection_name(), "gigatoken_9fcabc51fc011346");
}

#[test]
fn nested_codebases_have_names_of_their_own() {
    let identity = Some("AlphaHENG");
    let root = Some("/r");
    let a = scoped("/r/a", identity, root);
    let b = scoped("/r/b", identity, root);
    let whole = scoped("/r", identity, root);
    assert_eq!(a.as_deref(), Some("AlphaHENG/a"));
    assert_eq!(b.as_deref(), Some("AlphaHENG/b"));
    assert_eq!(whole.as_deref(), Some("AlphaHENG"));
}

#[test]
fn filter_quotes_every_path() {
    assert_eq!(
        build_relative_path_milvus_filter(&["src/a.rs".to_string(), "b\"\\\n\u{1}.rs".to_string()]),
        "metadata[\"relative_path\"] in [\"src/a.rs\", \"b\\\"\\\\\\n\\u0001.rs\"]"
    );
    assert_eq!(
        build_relative_path_milvus_filter(&[]),
        "metadata[\"relative_path\"] in []"
    );
}

#[test]
fn a_name_ends_with_the_digest_of_what_is_hashed() {
    assert_eq!(text_to_hash(&path("/a/b"), None), "/a/b");
    assert_eq!(text_to_hash(&path("/a/b"), Some(" id ")), "id");
    assert_eq!(text_to_hash(&path("/a/b"), Some(" ")), "/a/b");
    let digest: Vec<u8> = (0xa0..0xc0).collect();
    assert_eq!(
        collection_name_with_digest(&path("/a/b"), None, &digest),
        "b_a0a1a2a3a4a5a6a7"
    );
    assert_eq!(
        collection_name_with_digest(&path("/a/b"), Some("x/y"), &digest),
        "y_a0a1a2a3a4a5a6a7"
    );
}

#[test]
fn one_relative_path_has_one_identity_on_every_host() {
    for rel in ["", "contrib/x", "./contrib//x/", "a/../b", "größe"] {
        let here = path("/Users/k/A").join(rel);
        let there = path("/srv/a/b/").join(rel);
        let one = scoped_collection_identity(&here, Some("A"), Some("/Users/k/A"), None, None);
        let two = scoped_collection_identity(&there, Some("A"), Some("/srv/a/b/"), None, None);
        assert!(one.is_some());
        assert_eq!(one, two, "{rel}");
    }
}

#[test]
fn every_name_ends_in_sixteen_digits() {
    for text in ["/", "/a", "/home/x/1", "/home/ä ö"] {
        let name = collection_name_from_path_with_identity(&path(text), None);
        assert!(name.len() >= 18);
        let (lead, digits) = name.split_at(name.len() - 16);
        assert!(lead.ends_with('_'));
        assert!(digits.chars().all(|c| matches!(c, '0'..='9' | 'a'..='f')));
    }
}
