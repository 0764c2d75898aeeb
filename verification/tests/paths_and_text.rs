use rust_indexer::path::HostPath;
use rust_indexer::text::{join_texts, non_empty_trimmed, push_decimal};
use rust_indexer::vectordb::files::{
    cache_dir, collection_in_file, collection_path, extension_text, storage_dir,
};
use std::path::Path;

const SAMPLES: [&str; 20] = [
    "", "/", ".", "..", "./a", "a", "a/", "/a", "/a/", "//a//b", "/a/./b", "/a/../b", "a/b/c",
    "./", "/.", "a/.", "a/..", "/a/b/..", ".hidden", "/a/ b /c.d",
];

#[test]
fn file_names_are_those_of_std() {
    for text in SAMPLES {
        let expected = Path::new(text).file_name().and_then(|name| name.to_str());
        assert_eq!(
            HostPath::from_text(text).file_name_text().as_deref(),
            expected,
            "{text}"
        );
    }
}

#[test]
fn relative_paths_are_those_of_std() {
    for root in SAMPLES {
        for text in SAMPLES {
            let expected = Path::new(text)
                .strip_prefix(Path::new(root))
                .unwrap_or(Path::new(text))
                .to_string_lossy()
                .to_string();
            assert_eq!(
                HostPath::from_text(text).relative_text(&HostPath::from_text(root)),
                expected,
                "{text} under {root}"
            );
        }
    }
}

#[test]
fn relative_components_are_those_of_std() {
    for root in SAMPLES {
        for text in SAMPLES {
            let expected = Path::new(text).strip_prefix(Path::new(root)).ok().map(|rest| {
                rest.components()
                    .map(|part| part.as_os_str().to_string_lossy().to_string())
                    .collect::<Vec<_>>()
            });
            assert_eq!(
                HostPath::from_text(text).relative_parts(&HostPath::from_text(root)),
                expected,
                "{text} under {root}"
            );
        }
    }
}

#[test]
fn joined_paths_are_those_of_std() {
    for root in SAMPLES {
        for text in SAMPLES {
            let expected = Path::new(root).join(text).to_string_lossy().to_string();
            assert_eq!(
                HostPath::from_text(root).join(text).to_text(),
                expected,
                "{root} + {text}"
            );
        }
    }
}

#[test]
fn absolute_paths_are_those_of_std() {
    for text in SAMPLES {
        let path = HostPath::from_text(text);
        assert_eq!(path.is_absolute(), Path::new(text).is_absolute(), "{text}");
        assert_eq!(path.is_empty(), text.is_empty());
    }
    assert!(HostPath::empty().is_empty());
}

#[test]
fn invalid_bytes_are_shown_replaced() {
    let path = HostPath {
        bytes: vec![b'/', b'a', 0xff, b'b'],
    };
    assert_eq!(path.to_text(), "/a\u{fffd}b");
    assert_eq!(path.file_name_text(), None);
}

#[test]
fn trimming_is_that_of_std() {
    for text in ["", " ", " a ", "\u{3000}x y\u{85}", "\t\n", "a\u{200b}", "\u{feff}b"] {
        let trimmed = text.trim();
        let expected = if trimmed.is_empty() { None } else { Some(trimmed) };
        assert_eq!(non_empty_trimmed(text), expected);
    }
}

#[test]
fn numbers_are_written_in_decimal() {
    for n in [0u64, 7, 10, 99, 100, 33_345, u64::MAX] {
        let mut text = String::new();
        push_decimal(&mut text, n);
        assert_eq!(text, n.to_string());
    }
}

#[test]
fn texts_are_joined_with_a_separator() {
    let parts = ["a".to_string(), "b".to_string(), String::new()];
    assert_eq!(join_texts(&parts, "; "), "a; b; ");
    assert_eq!(join_texts(&[], "; "), "");
}

#[test]
fn cache_directory_follows_the_environment() {
    let home = HostPath::from_text("/home/u");
    assert_eq!(
        cache_dir(Some("/cache"), Some(&home)).to_text(),
        "/cache/rust-indexer"
    );
    assert_eq!(
        cache_dir(None, Some(&home)).to_text(),
        "/home/u/.cache/rust-indexer"
    );
    assert_eq!(cache_dir(None, None).to_text(), "/tmp/rust-indexer");
    assert_eq!(
        collection_path(&storage_dir(&cache_dir(Some("/cache"), None)), "repo_1").to_text(),
        "/cache/rust-indexer/vector-indexes/repo_1.bin"
    );
}

#[test]
fn a_file_is_listed_by_its_stem() {
    for name in ["repo_1.bin", "a.b.bin", ".bin", "plain", "x.", ".a.b", ""] {
        let expected = Path::new(name)
            .file_stem()
            .and_then(|stem| stem.to_str())
            .unwrap_or("");
        assert_eq!(collection_in_file(name), expected, "{name}");
    }
}

#[test]
fn paths_are_the_same_as_in_std() {
    for a in SAMPLES {
        for b in SAMPLES {
            assert_eq!(
                HostPath::from_text(a).same_path(&HostPath::from_text(b)),
                Path::new(a) == Path::new(b),
                "{a} and {b}"
            );
        }
    }
}

#[test]
fn extensions_are_those_of_std() {
    for text in ["a.rs", "x/y.tar.gz", ".hidden", "x.", "..", "plain", "d.d/plain", "", "a.b/."] {
        let expected = Path::new(text).extension().and_then(|found| found.to_str());
        assert_eq!(extension_text(text).as_deref(), expected, "{text}");
    }
}
