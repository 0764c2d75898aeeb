//! Where the local store keeps its files.

use crate::path::{
    components, file_name_text, law_components_of_a_relative_path, law_file_name_text_is_the_name,
    path_join, plain_name, spelled, HostPath, DOT, SLASH,
};
use crate::text::chars_of;
use vstd::prelude::*;
use vstd::string::StringExecFns;
use vstd::utf8::{
    encode_utf8, encode_utf8_decode_utf8, encode_utf8_valid_utf8, is_ascii_chars_encode_utf8,
};

verus! {

/// The cache directory, from the cache home and the home directory as far as they
/// are set.
pub open spec fn cache_path(cache_home: Option<Seq<char>>, home: Option<Seq<u8>>) -> Seq<u8> {
    match (cache_home, home) {
        (Some(dir), _) => path_join(encode_utf8(dir), encode_utf8("rust-indexer"@)),
        (None, Some(dir)) => path_join(
            path_join(dir, encode_utf8(".cache"@)),
            encode_utf8("rust-indexer"@),
        ),
        (None, None) => encode_utf8("/tmp/rust-indexer"@),
    }
}

/// The directory for collections under a cache directory.
pub open spec fn storage_path(cache: Seq<u8>) -> Seq<u8> {
    path_join(cache, encode_utf8("vector-indexes"@))
}

/// The name of a collection's file.
pub open spec fn file_name_for(name: Seq<char>) -> Seq<char> {
    name + ".bin"@
}

/// The place of the last `.` in `name` before `end`; -1 when there is none.
pub open spec fn last_dot(name: Seq<char>, end: int) -> int
    decreases end,
{
    if end <= 0 {
        -1
    } else if name[end - 1] == '.' {
        end - 1
    } else {
        last_dot(name, end - 1)
    }
}

/// A file name without its extension. A dot at the start begins no extension.
pub open spec fn stem(file_name: Seq<char>) -> Seq<char> {
    let dot = last_dot(file_name, file_name.len() as int);
    if dot <= 0 {
        file_name
    } else {
        file_name.take(dot)
    }
}

/// The cache directory.
pub fn cache_dir(cache_home: Option<&str>, home: Option<&HostPath>) -> (r: HostPath)
    ensures
        r@ == cache_path(crate::text::view_opt(cache_home), crate::text::view_opt(home)),
{
    match cache_home {
        Some(dir) => HostPath::from_text(dir).join("rust-indexer"),
        None => match home {
            Some(dir) => dir.join(".cache").join("rust-indexer"),
            None => HostPath::from_text("/tmp/rust-indexer"),
        },
    }
}

/// The directory for collections.
pub fn storage_dir(cache: &HostPath) -> (r: HostPath)
    ensures
        r@ == storage_path(cache@),
{
    cache.join("vector-indexes")
}

/// The path of a collection's file.
pub fn collection_path(storage: &HostPath, name: &str) -> (r: HostPath)
    ensures
        r@ == path_join(storage@, encode_utf8(file_name_for(name@))),
{
    let mut file_name = name.to_owned();
    file_name.append(".bin");
    storage.join(file_name.as_str())
}

/// The name of the collection that a file holds.
pub fn collection_in_file(file_name: &str) -> (r: String)
    ensures
        r@ == stem(file_name@),
{
    let chars = chars_of(file_name);
    let mut end: usize = chars.len();
    while end > 0 && chars[end - 1] != '.'
        invariant
            end <= chars@.len(),
            last_dot(chars@, end as int) == last_dot(chars@, chars@.len() as int),
        decreases end,
    {
        end -= 1;
    }
    if end <= 1 {
        return file_name.to_owned();
    }
    let mut name = String::new();
    let mut i: usize = 0;
    while i < end - 1
        invariant
            i <= end - 1 < chars@.len(),
            name@ =~= chars@.take(i as int),
        decreases end - i,
    {
        name.push(chars[i]);
        i += 1;
    }
    name
}

/// The extension of a file name: what follows its last dot, unless that starts
/// the name.
pub open spec fn name_extension(file_name: Seq<char>) -> Option<Seq<char>> {
    let dot = last_dot(file_name, file_name.len() as int);
    if dot <= 0 {
        None
    } else {
        Some(file_name.skip(dot + 1))
    }
}

/// The extension of the file that a path in text names.
pub open spec fn extension_of(path: Seq<char>) -> Option<Seq<char>> {
    match file_name_text(encode_utf8(path)) {
        Some(name) => name_extension(name),
        None => None,
    }
}

/// The extension of the file that a path names.
pub fn extension_text(path: &str) -> (r: Option<String>)
    ensures
        crate::text::view_opt(r) == extension_of(path@),
{
    let name = match HostPath::from_text(path).file_name_text() {
        Some(name) => name,
        None => {
            return None;
        },
    };
    let chars = chars_of(name.as_str());
    let mut end: usize = chars.len();
    while end > 0 && chars[end - 1] != '.'
        invariant
            end <= chars@.len(),
            last_dot(chars@, end as int) == last_dot(chars@, chars@.len() as int),
        decreases end,
    {
        end -= 1;
    }
    if end <= 1 {
        return None;
    }
    let mut extension = String::new();
    let mut i: usize = end;
    while i < chars.len()
        invariant
            end <= i <= chars@.len(),
            extension@ =~= chars@.subrange(end as int, i as int),
        decreases chars@.len() - i,
    {
        extension.push(chars[i]);
        i += 1;
    }
    assert(extension@ =~= chars@.skip(end as int));
    Some(extension)
}

proof fn lemma_last_dot_of_bin(name: Seq<char>)
    ensures
        last_dot(file_name_for(name), file_name_for(name).len() as int) == name.len(),
        file_name_for(name).len() == name.len() + 4,
{
    reveal_strlit(".bin");
    reveal_with_fuel(last_dot, 5);
    let file = file_name_for(name);
    let n = name.len() as int;
    assert(file[n] == '.');
    assert(file[n + 1] == 'b');
    assert(file[n + 2] == 'i');
    assert(file[n + 3] == 'n');
}

/// A collection is listed under the name under which it was written.
pub proof fn law_collection_keeps_its_name(name: Seq<char>)
    requires
        name.len() > 0,
    ensures
        stem(file_name_for(name)) == name,
{
    lemma_last_dot_of_bin(name);
    assert(file_name_for(name).take(name.len() as int) =~= name);
}

/// Two collections have two files.
pub proof fn law_collections_have_their_own_files(a: Seq<char>, b: Seq<char>)
    requires
        file_name_for(a) == file_name_for(b),
    ensures
        a == b,
{
    lemma_last_dot_of_bin(a);
    lemma_last_dot_of_bin(b);
    assert(file_name_for(a).take(a.len() as int) =~= a);
    assert(file_name_for(b).take(b.len() as int) =~= b);
}

proof fn lemma_last_dot(name: Seq<char>, dot: int, end: int)
    requires
        0 <= dot < end <= name.len(),
        name[dot] == '.',
        forall|i: int| dot < i < end ==> #[trigger] name[i] != '.',
    ensures
        last_dot(name, end) == dot,
    decreases end,
{
    if end - 1 > dot {
        assert(name[end - 1] != '.');
        lemma_last_dot(name, dot, end - 1);
    }
}

proof fn lemma_no_dot(name: Seq<char>, end: int)
    requires
        0 <= end <= name.len(),
        forall|i: int| 0 <= i < end ==> #[trigger] name[i] != '.',
    ensures
        last_dot(name, end) == -1,
    decreases end,
{
    if end > 0 {
        lemma_no_dot(name, end - 1);
    }
}

/// A name with something before its last dot is that, as its stem, and what follows
/// the dot, as its extension, even where nothing follows.
pub proof fn law_last_dot_parts_stem_and_extension(base: Seq<char>, extension: Seq<char>)
    requires
        base.len() > 0,
        !extension.contains('.'),
    ensures
        stem(base.push('.') + extension) == base,
        name_extension(base.push('.') + extension) == Some(extension),
{
    let name = base.push('.') + extension;
    let dot = base.len() as int;
    assert forall|i: int| dot < i < name.len() implies #[trigger] name[i] != '.' by {
        assert(name[i] == extension[i - dot - 1]);
        assert(extension.contains(extension[i - dot - 1]));
    }
    lemma_last_dot(name, dot, name.len() as int);
    assert(name.take(dot) =~= base);
    assert(name.skip(dot + 1) =~= extension);
}

/// A name without a dot, or with one at its start only, has no extension and is its
/// own stem.
pub proof fn law_name_without_inner_dot_has_no_extension(name: Seq<char>)
    requires
        forall|i: int| 0 < i < name.len() ==> #[trigger] name[i] != '.',
    ensures
        stem(name) == name,
        name_extension(name) is None,
{
    if name.len() > 0 && name[0] == '.' {
        lemma_last_dot(name, 0, name.len() as int);
    } else {
        lemma_no_dot(name, name.len() as int);
    }
}

proof fn lemma_ascii_texts()
    ensures
        encode_utf8("/rust-indexer"@) =~= seq![SLASH] + encode_utf8("rust-indexer"@),
        encode_utf8("/.cache/rust-indexer"@) =~= seq![SLASH] + encode_utf8(".cache"@) + seq![SLASH]
            + encode_utf8("rust-indexer"@),
        encode_utf8("rust-indexer"@).len() > 0,
        encode_utf8("rust-indexer"@)[0] != SLASH,
        encode_utf8(".cache"@).len() > 0,
        encode_utf8(".cache"@)[0] != SLASH,
        encode_utf8(".cache"@).last() != SLASH,
{
    reveal_strlit("/rust-indexer");
    reveal_strlit("rust-indexer");
    reveal_strlit("/.cache/rust-indexer");
    reveal_strlit(".cache");
    is_ascii_chars_encode_utf8("/rust-indexer"@);
    is_ascii_chars_encode_utf8("rust-indexer"@);
    is_ascii_chars_encode_utf8("/.cache/rust-indexer"@);
    is_ascii_chars_encode_utf8(".cache"@);
}

/// The cache is a directory `rust-indexer`: of the cache home where that is set,
/// else of `.cache` in the home directory, else of `/tmp`.
pub proof fn law_cache_goes_by_what_is_set(
    cache_home: Seq<char>,
    home: Seq<u8>,
    other: Option<Seq<u8>>,
)
    requires
        encode_utf8(cache_home).len() > 0,
        encode_utf8(cache_home).last() != SLASH,
        home.len() > 0,
        home.last() != SLASH,
    ensures
        cache_path(Some(cache_home), other) == encode_utf8(cache_home) + encode_utf8(
            "/rust-indexer"@,
        ),
        cache_path(None, Some(home)) == home + encode_utf8("/.cache/rust-indexer"@),
        cache_path(None, None) == encode_utf8("/tmp/rust-indexer"@),
{
    lemma_ascii_texts();
    assert(cache_path(Some(cache_home), other) =~= encode_utf8(cache_home) + encode_utf8(
        "/rust-indexer"@,
    ));
    assert(cache_path(None, Some(home)) =~= home + encode_utf8("/.cache/rust-indexer"@));
}

/// However a directory is spelled, the cache is what `rust-indexer` joined to it is, the
/// collections what `vector-indexes` joined to the cache is, and a collection's file its
/// name and `.bin`.
pub proof fn law_places_are_joined(
    cache_home: Seq<char>,
    home: Seq<u8>,
    other: Option<Seq<u8>>,
    cache: Seq<u8>,
    name: Seq<char>,
)
    ensures
        cache_path(Some(cache_home), other) == path_join(
            encode_utf8(cache_home),
            encode_utf8("rust-indexer"@),
        ),
        cache_path(None, Some(home)) == path_join(
            path_join(home, encode_utf8(".cache"@)),
            encode_utf8("rust-indexer"@),
        ),
        storage_path(cache) == path_join(cache, encode_utf8("vector-indexes"@)),
        file_name_for(name) == name + seq!['.', 'b', 'i', 'n'],
{
    reveal_strlit(".bin");
    assert(".bin"@ =~= seq!['.', 'b', 'i', 'n']);
}

/// The extension of a path is that of its file name.
pub proof fn law_extension_is_that_of_the_file_name(
    path: Seq<char>,
    root: Seq<u8>,
    name: Seq<char>,
)
    requires
        root.len() > 0,
        plain_name(encode_utf8(name)),
        encode_utf8(name) != seq![DOT, DOT],
        encode_utf8(path) == path_join(root, encode_utf8(name)) || path == name,
    ensures
        extension_of(path) == name_extension(name),
{
    law_file_name_text_is_the_name(root, name);
    if path == name {
        let bytes = encode_utf8(name);
        law_components_of_a_relative_path(seq![bytes]);
        assert(spelled(seq![bytes]) == bytes);
        assert(components(bytes).last() == bytes);
        if bytes == seq![SLASH] {
            assert(bytes.contains(SLASH));
        }
        encode_utf8_valid_utf8(name);
        encode_utf8_decode_utf8(name);
    }
}

} // verus!
