//! Names of vector collections, and the filter that selects the rows of a set
//! of files.

use crate::encoding::{
    hex_digit, hex_encode, hex_text, json_encode, json_string, law_json_string_injective, sha256,
    sha256_digest,
};
use crate::path::{
    components, file_name_text, law_components_of_a_relative_path,
    law_file_name_is_the_name_joined_last, law_file_name_text_is_the_name,
    law_join_adds_components, law_relative_undoes_join, lemma_components_are_utf8,
    lemma_decoded_slash, lemma_later_components_hold_no_slash, lemma_some_component, names_in,
    path_join, path_text, plain_name, relative_parts, spelled, under, HostPath, DOT, SLASH,
};
use crate::text::{
    ascii_digit, ascii_letter, chars_of, is_ascii_digit, is_ascii_letter, join_texts, joined,
    law_digits_and_letters_by_code_points, law_joined_keeps_the_parts, law_trimming_strips_the_ends,
    law_trimming_white_space_leaves_nothing, non_empty_trimmed, trimmed_or_none, view_opt, views,
    white_space,
};
use vstd::prelude::*;
use vstd::string::StringExecFns;
use vstd::utf8::{
    decode_utf8_encode_utf8, encode_utf8, encode_utf8_decode_utf8, encode_utf8_valid_utf8,
    valid_utf8,
};

verus! {

/// The longest name a collection may have.
pub const MAX_NAME_LEN: usize = 255;

/// How many hexadecimal digits of the digest a name carries.
pub const HASH_LEN: usize = 16;

/// How many characters the readable part of a name may have: what is left of
/// the longest name beside the digits and the `_` before them.
pub const MAX_PREFIX_LEN: usize = 238;

/// An operator's wish to name collections alike on several hosts: an identity,
/// and the directory that it stands for on this host.
#[derive(Debug)]
pub struct CollectionScope {
    pub identity: Option<String>,
    pub root: Option<String>,
}

/// `s` trimmed, when something is left of it.
pub open spec fn present(s: Option<Seq<char>>) -> Option<Seq<char>> {
    match s {
        Some(text) => trimmed_or_none(text),
        None => None,
    }
}

/// `c` where it is an ASCII letter or digit, else `_`.
pub open spec fn safe_char(c: char) -> char {
    if ascii_letter(c) || ascii_digit(c) {
        c
    } else {
        '_'
    }
}

/// `prefix` in ASCII letters, digits and underscores, not starting with a digit.
pub open spec fn safe_prefix(prefix: Seq<char>) -> Seq<char> {
    let safe = Seq::new(prefix.len(), |i: int| safe_char(prefix[i]));
    if safe.len() == 0 || ascii_digit(safe[0]) {
        seq!['_'] + safe
    } else {
        safe
    }
}

/// A readable part, cut where it is too long, and a digest part.
pub open spec fn name_text(prefix: Seq<char>, hash: Seq<char>) -> Seq<char> {
    let safe = safe_prefix(prefix);
    let cut = if safe.len() > MAX_PREFIX_LEN {
        safe.take(MAX_PREFIX_LEN as int)
    } else {
        safe
    };
    cut + seq!['_'] + hash
}

/// The readable part for an identity: its last path component, or all of it.
pub open spec fn identity_prefix_text(identity: Seq<char>) -> Option<Seq<char>> {
    match present(file_name_text(encode_utf8(identity))) {
        Some(name) => Some(name),
        None => trimmed_or_none(identity),
    }
}

/// What a collection's digest is taken of: the identity, or else the path.
pub open spec fn hashed_text(path: Seq<u8>, identity: Option<Seq<char>>) -> Seq<char> {
    match present(identity) {
        Some(id) => id,
        None => path_text(path),
    }
}

/// The part of a digest that stands in a name: its first hexadecimal digits.
pub open spec fn digest_digits(digest: Seq<u8>) -> Seq<char> {
    hex_text(digest).take(HASH_LEN as int)
}

/// The first digits of the digest of a text.
pub open spec fn hash_digits(text: Seq<char>) -> Seq<char> {
    digest_digits(sha256_digest(encode_utf8(text)))
}

/// The readable part of a collection's name, before it is made safe.
pub open spec fn prefix_text(path: Seq<u8>, identity: Option<Seq<char>>) -> Seq<char> {
    let from_identity = match present(identity) {
        Some(id) => identity_prefix_text(id),
        None => None,
    };
    match from_identity {
        Some(prefix) => prefix,
        None => match file_name_text(path) {
            Some(name) => name,
            None => "collection"@,
        },
    }
}

/// The name of the collection for `path` under `identity`.
pub open spec fn collection_name(path: Seq<u8>, identity: Option<Seq<char>>) -> Seq<char> {
    name_text(prefix_text(path, identity), hash_digits(hashed_text(path, identity)))
}

/// The identity of the codebase at `path` when `identity` stands for `root`: the
/// identity itself at the root, extended by the relative path below it, and none
/// elsewhere or when either of the two settings is missing.
pub open spec fn scoped_identity(
    path: Seq<u8>,
    identity: Option<Seq<char>>,
    root: Option<Seq<char>>,
    resolved_root: Seq<u8>,
) -> Option<Seq<char>> {
    match (present(identity), present(root)) {
        (Some(id), Some(_)) => {
            if !under(path, resolved_root) {
                None
            } else if relative_parts(path, resolved_root).len() == 0 {
                Some(id)
            } else {
                Some(id + "/"@ + joined(relative_parts(path, resolved_root), "/"@))
            }
        },
        _ => None,
    }
}

/// The bytes of the path that `canonical` holds, or else those that `fallback`
/// spells.
pub open spec fn resolved(canonical: Option<Seq<u8>>, fallback: Seq<u8>) -> Seq<u8> {
    match canonical {
        Some(path) => path,
        None => fallback,
    }
}

/// The bytes of a configured root: where it resolved to, or else as configured.
pub open spec fn resolved_root(canonical: Option<Seq<u8>>, root: Option<Seq<char>>) -> Seq<u8> {
    match canonical {
        Some(path) => path,
        None => match present(root) {
            Some(text) => encode_utf8(text),
            None => Seq::empty(),
        },
    }
}

/// The filter that selects the rows of the given files.
pub open spec fn relative_path_filter(paths: Seq<Seq<char>>) -> Seq<char> {
    "metadata[\"relative_path\"] in ["@ + joined(
        Seq::new(paths.len(), |i: int| json_string(paths[i])),
        ", "@,
    ) + "]"@
}

fn present_text(s: Option<&str>) -> (r: Option<&str>)
    ensures
        view_opt(r) == present(view_opt(s)),
{
    match s {
        Some(text) => non_empty_trimmed(text),
        None => None,
    }
}

/// The readable part for an identity: its last path component, or all of it.
pub fn identity_prefix(identity: &str) -> (r: Option<String>)
    ensures
        view_opt(r) == identity_prefix_text(identity@),
{
    let name = HostPath::from_text(identity).file_name_text();
    if let Some(text) = &name {
        if let Some(trimmed) = non_empty_trimmed(text.as_str()) {
            return Some(trimmed.to_owned());
        }
    }
    match non_empty_trimmed(identity) {
        Some(trimmed) => Some(trimmed.to_owned()),
        None => None,
    }
}

fn make_safe(prefix: &str) -> (r: Vec<char>)
    ensures
        r@ == safe_prefix(prefix@),
{
    let chars = chars_of(prefix);
    let mut out: Vec<char> = Vec::new();
    let starts_badly = chars.len() == 0 || is_ascii_digit(chars[0]);
    if starts_badly {
        out.push('_');
    }
    let ghost lead = out@;
    let ghost safe = Seq::new(chars@.len(), |i: int| safe_char(chars@[i]));
    let mut i: usize = 0;
    while i < chars.len()
        invariant
            i <= chars@.len(),
            safe == Seq::new(chars@.len(), |k: int| safe_char(chars@[k])),
            out@ =~= lead + safe.take(i as int),
        decreases chars@.len() - i,
    {
        let c = chars[i];
        if is_ascii_letter(c) || is_ascii_digit(c) {
            out.push(c);
        } else {
            out.push('_');
        }
        i += 1;
    }
    assert(safe.take(chars@.len() as int) =~= safe);
    assert(out@ =~= safe_prefix(prefix@));
    out
}

/// What a collection's digest is taken of: the identity, or else the path.
pub fn text_to_hash(path: &HostPath, identity: Option<&str>) -> (r: String)
    ensures
        r@ == hashed_text(path@, view_opt(identity)),
{
    match present_text(identity) {
        Some(id) => id.to_owned(),
        None => path.to_text(),
    }
}

/// The name of the collection for `path` under `identity`, with the digest of
/// what is to be hashed.
pub fn collection_name_with_digest(
    path: &HostPath,
    identity: Option<&str>,
    digest: &[u8],
) -> (r: String)
    requires
        HASH_LEN <= 2 * digest@.len() <= isize::MAX,
    ensures
        r@ == name_text(prefix_text(path@, view_opt(identity)), digest_digits(digest@)),
        valid_name(r@),
        ends_in_digest(r@),
{
    let hash = hex_encode(digest);
    let hash_chars = chars_of(hash.as_str());

    let from_identity = match present_text(identity) {
        Some(id) => identity_prefix(id),
        None => None,
    };
    let prefix = match from_identity {
        Some(prefix) => prefix,
        None => match path.file_name_text() {
            Some(name) => name,
            None => "collection".to_owned(),
        },
    };
    let mut safe = make_safe(prefix.as_str());
    if safe.len() > MAX_PREFIX_LEN {
        safe.truncate(MAX_PREFIX_LEN);
    }
    let mut name = String::new();
    let mut i: usize = 0;
    while i < safe.len()
        invariant
            i <= safe@.len(),
            name@ =~= safe@.take(i as int),
        decreases safe@.len() - i,
    {
        name.push(safe[i]);
        i += 1;
    }
    name.push('_');
    let mut j: usize = 0;
    while j < HASH_LEN
        invariant
            j <= HASH_LEN <= hash_chars@.len(),
            name@ =~= safe@.push('_') + hash_chars@.take(j as int),
        decreases HASH_LEN - j,
    {
        name.push(hash_chars[j]);
        j += 1;
    }
    assert(name@ =~= name_text(prefix@, hash_chars@.take(HASH_LEN as int)));
    proof {
        law_name_text_is_valid(prefix@, hash_chars@.take(HASH_LEN as int));
        assert forall|k: int| 0 <= k < HASH_LEN implies name_char(
            #[trigger] hash_chars@.take(HASH_LEN as int)[k],
        ) by {
            assert(hash_chars@[k] == hex_text(digest@)[k]);
            assert(0 <= digest@[k / 2] as int / 16 < 16);
            assert(0 <= digest@[k / 2] as int % 16 < 16);
        }
        let start = name@.len() - HASH_LEN;
        assert forall|k: int| start <= k < name@.len() implies hex_char(#[trigger] name@[k]) by {
            let d = k - start;
            assert(name@[k] == hash_chars@[d]);
            assert(hash_chars@[d] == hex_text(digest@)[d]);
            assert(0 <= digest@[d / 2] as int / 16 < 16);
            assert(0 <= digest@[d / 2] as int % 16 < 16);
        }
    }
    name
}

/// The name of the collection for `path` under `identity`. It holds ASCII
/// letters, digits and underscores only, does not start with a digit, and has at
/// most `MAX_NAME_LEN` characters.
pub fn collection_name_from_path_with_identity(path: &HostPath, identity: Option<&str>) -> (r: String)
    ensures
        r@ == collection_name(path@, view_opt(identity)),
        valid_name(r@),
        ends_in_digest(r@),
{
    let hashed = text_to_hash(path, identity);
    let digest = sha256(hashed.as_str().as_bytes());
    collection_name_with_digest(path, identity, digest.as_slice())
}

/// The identity of the codebase at `path` when `identity` stands for `root`.
/// `canonical_path` and `canonical_root` are what the file system resolves
/// `path` and the trimmed `root` to, where it can.
pub fn scoped_collection_identity(
    path: &HostPath,
    identity: Option<&str>,
    root: Option<&str>,
    canonical_path: Option<&HostPath>,
    canonical_root: Option<&HostPath>,
) -> (r: Option<String>)
    ensures
        view_opt(r) == scoped_identity(
            resolved(view_opt(canonical_path), path@),
            view_opt(identity),
            view_opt(root),
            resolved_root(view_opt(canonical_root), view_opt(root)),
        ),
{
    let id = match present_text(identity) {
        Some(id) => id,
        None => {
            return None;
        },
    };
    let root_text = match present_text(root) {
        Some(text) => text,
        None => {
            return None;
        },
    };
    let base = match canonical_root {
        Some(found) => found.clone(),
        None => HostPath::from_text(root_text),
    };
    let place = match canonical_path {
        Some(found) => found.clone(),
        None => path.clone(),
    };
    let parts = match place.relative_parts(&base) {
        Some(parts) => parts,
        None => {
            return None;
        },
    };
    let mut out = id.to_owned();
    if parts.len() > 0 {
        out.append("/");
        let relative = join_texts(parts.as_slice(), "/");
        out.append(relative.as_str());
    }
    Some(out)
}

/// The name of the collection for `path` in the given scope.
pub fn collection_name_from_path(
    path: &HostPath,
    scope: &CollectionScope,
    canonical_path: Option<&HostPath>,
    canonical_root: Option<&HostPath>,
) -> (r: String)
    ensures
        r@ == collection_name(
            path@,
            scoped_identity(
                resolved(view_opt(canonical_path), path@),
                view_opt(scope.identity),
                view_opt(scope.root),
                resolved_root(view_opt(canonical_root), view_opt(scope.root)),
            ),
        ),
        valid_name(r@),
        ends_in_digest(r@),
{
    let identity = match &scope.identity {
        Some(text) => Some(text.as_str()),
        None => None,
    };
    let root = match &scope.root {
        Some(text) => Some(text.as_str()),
        None => None,
    };
    let scoped = scoped_collection_identity(path, identity, root, canonical_path, canonical_root);
    match &scoped {
        Some(text) => collection_name_from_path_with_identity(path, Some(text.as_str())),
        None => collection_name_from_path_with_identity(path, None),
    }
}

/// A codebase as its host knows it: its path, that path resolved, and how
/// collections are named there.
#[derive(Debug)]
pub struct Location {
    pub path: HostPath,
    /// The path resolved, where that succeeded.
    pub canonical_path: Option<HostPath>,
    pub scope: CollectionScope,
    /// The root of the scope resolved, where that succeeded.
    pub canonical_root: Option<HostPath>,
}

impl Location {
    /// The identity under which the codebase is known.
    pub open spec fn identity(&self) -> Option<Seq<char>> {
        scoped_identity(
            resolved(view_opt(self.canonical_path), self.path@),
            view_opt(self.scope.identity),
            view_opt(self.scope.root),
            resolved_root(view_opt(self.canonical_root), view_opt(self.scope.root)),
        )
    }

    /// The name of the codebase's collection.
    pub fn collection_name(&self) -> (r: String)
        ensures
            r@ == collection_name(self.path@, self.identity()),
            valid_name(r@),
            ends_in_digest(r@),
    {
        collection_name_from_path(
            &self.path,
            &self.scope,
            self.canonical_path.as_ref(),
            self.canonical_root.as_ref(),
        )
    }
}

/// The filter that selects the rows of the given files.
pub fn build_relative_path_milvus_filter(relative_paths: &[String]) -> (r: String)
    ensures
        r@ == relative_path_filter(views(relative_paths@)),
{
    let mut quoted: Vec<String> = Vec::new();
    let ghost all = Seq::new(relative_paths@.len(), |i: int| json_string(relative_paths@[i]@));
    let mut i: usize = 0;
    while i < relative_paths.len()
        invariant
            i <= relative_paths@.len(),
            all == Seq::new(relative_paths@.len(), |k: int| json_string(relative_paths@[k]@)),
            quoted@.len() == i,
            views(quoted@) =~= all.take(i as int),
        decreases relative_paths@.len() - i,
    {
        match json_encode(relative_paths[i].as_str()) {
            Ok(text) => quoted.push(text),
            Err(_) => {},
        }
        i += 1;
    }
    assert(views(quoted@) =~= all);
    let mut out = "metadata[\"relative_path\"] in [".to_owned();
    let list = join_texts(quoted.as_slice(), ", ");
    out.append(list.as_str());
    out.append("]");
    assert(all =~= Seq::new(
        views(relative_paths@).len(),
        |k: int| json_string(views(relative_paths@)[k]),
    ));
    out
}

/// A character that a collection's name may hold.
pub open spec fn name_char(c: char) -> bool {
    ascii_letter(c) || ascii_digit(c) || c == '_'
}

/// A name that every store accepts.
pub open spec fn valid_name(name: Seq<char>) -> bool {
    &&& 0 < name.len() <= MAX_NAME_LEN
    &&& forall|i: int| 0 <= i < name.len() ==> name_char(#[trigger] name[i])
    &&& !ascii_digit(name[0])
}

/// A lower-case hexadecimal digit.
pub open spec fn hex_char(c: char) -> bool {
    ascii_digit(c) || 'a' <= c <= 'f'
}

/// Something readable, an underscore, and the digits of a digest.
pub open spec fn ends_in_digest(name: Seq<char>) -> bool {
    &&& name.len() >= HASH_LEN + 2
    &&& name[name.len() - HASH_LEN - 1] == '_'
    &&& forall|i: int|
        name.len() - HASH_LEN <= i < name.len() ==> hex_char(#[trigger] name[i])
}

/// Any readable part makes a valid name with any digest part of the right length
/// in letters and digits.
pub proof fn law_name_text_is_valid(prefix: Seq<char>, hash: Seq<char>)
    ensures
        hash.len() == HASH_LEN && (forall|i: int|
            0 <= i < hash.len() ==> name_char(#[trigger] hash[i])) ==> valid_name(
            name_text(prefix, hash),
        ),
{
    let safe = safe_prefix(prefix);
    assert(safe.len() > 0);
    assert forall|i: int| 0 <= i < safe.len() implies name_char(#[trigger] safe[i]) by {}
    assert(!ascii_digit(safe[0]));
    let name = name_text(prefix, hash);
    assert(name[0] == safe[0]);
}

/// Names with different digest parts differ.
pub proof fn law_name_text_tells_hashes_apart(
    prefix1: Seq<char>,
    hash1: Seq<char>,
    prefix2: Seq<char>,
    hash2: Seq<char>,
)
    requires
        hash1.len() == hash2.len(),
        name_text(prefix1, hash1) == name_text(prefix2, hash2),
    ensures
        hash1 == hash2,
{
    let a = name_text(prefix1, hash1);
    let b = name_text(prefix2, hash2);
    assert(hash1 =~= a.skip(a.len() - hash1.len()));
    assert(hash2 =~= b.skip(b.len() - hash2.len()));
}

/// A collection that has an identity is named alike wherever it is checked out.
pub proof fn law_identity_overrides_path(path1: Seq<u8>, path2: Seq<u8>, identity: Seq<char>)
    requires
        trimmed_or_none(identity) is Some,
    ensures
        collection_name(path1, Some(identity)) == collection_name(path2, Some(identity)),
{
    let id = trimmed_or_none(identity)->0;
    lemma_trimmed_is_trimmed(identity);
    assert(trimmed_or_none(id) == Some(id));
    assert(identity_prefix_text(id) is Some);
}

/// An identity of white space alone is no identity.
pub proof fn law_blank_identity_falls_back_to_path(path: Seq<u8>, identity: Seq<char>)
    requires
        trimmed_or_none(identity) is None,
    ensures
        collection_name(path, Some(identity)) == collection_name(path, None),
{
}

/// Two hosts that hold a codebase at the same place below their roots give it
/// the same identity.
pub proof fn law_scoped_identity_is_stable_across_hosts(
    path1: Seq<u8>,
    root1: Seq<u8>,
    path2: Seq<u8>,
    root2: Seq<u8>,
    identity: Option<Seq<char>>,
    setting1: Option<Seq<char>>,
    setting2: Option<Seq<char>>,
)
    requires
        present(setting1) is Some,
        present(setting2) is Some,
        under(path1, root1),
        under(path2, root2),
        components(path1).skip(components(root1).len() as int) == components(path2).skip(
            components(root2).len() as int,
        ),
    ensures
        scoped_identity(path1, identity, setting1, root1) == scoped_identity(
            path2,
            identity,
            setting2,
            root2,
        ),
{
    let a = components(path1);
    let b = components(path2);
    let m = components(root1).len() as int;
    let n = components(root2).len() as int;
    assert(a.skip(m).len() == b.skip(n).len());
    assert(forall|i: int| 0 <= i < a.len() - m ==> a.skip(m)[i] == #[trigger] a[m + i]);
    assert(forall|i: int| 0 <= i < b.len() - n ==> b.skip(n)[i] == #[trigger] b[n + i]);
    assert(relative_parts(path1, root1) =~= relative_parts(path2, root2));
}

/// A codebase at one relative path below the roots of two hosts has one identity.
pub proof fn law_same_relative_path_same_identity(
    root1: Seq<u8>,
    root2: Seq<u8>,
    rel: Seq<u8>,
    identity: Option<Seq<char>>,
    setting1: Option<Seq<char>>,
    setting2: Option<Seq<char>>,
)
    requires
        root1.len() > 0,
        root2.len() > 0,
        rel.len() > 0 ==> rel[0] != SLASH,
        present(setting1) is Some,
        present(setting2) is Some,
    ensures
        scoped_identity(path_join(root1, rel), identity, setting1, root1) == scoped_identity(
            path_join(root2, rel),
            identity,
            setting2,
            root2,
        ),
        present(identity) is Some ==> scoped_identity(
            path_join(root1, rel),
            identity,
            setting1,
            root1,
        ) is Some,
{
    let path1 = path_join(root1, rel);
    let path2 = path_join(root2, rel);
    law_join_adds_components(root1, rel);
    law_join_adds_components(root2, rel);
    let a = components(root1);
    let b = components(root2);
    assert(a =~= components(path1).subrange(0, a.len() as int));
    assert(b =~= components(path2).subrange(0, b.len() as int));
    assert(components(path1).skip(a.len() as int) =~= names_in(rel));
    assert(components(path2).skip(b.len() as int) =~= names_in(rel));
    law_scoped_identity_is_stable_across_hosts(
        path1,
        root1,
        path2,
        root2,
        identity,
        setting1,
        setting2,
    );
}

/// The root itself has the configured identity, trimmed.
pub proof fn law_root_has_the_configured_identity(
    root: Seq<u8>,
    identity: Seq<char>,
    setting: Option<Seq<char>>,
)
    requires
        present(setting) is Some,
    ensures
        scoped_identity(root, Some(identity), setting, root) == trimmed_or_none(identity),
{
    lemma_relative_of_self(root);
}

proof fn lemma_relative_of_self(root: Seq<u8>)
    ensures
        under(root, root),
        relative_parts(root, root).len() == 0,
{
    let parts = components(root);
    assert(parts =~= parts.subrange(0, parts.len() as int));
}

/// No identity reaches a path outside its root, and half a configuration is none.
pub proof fn law_identity_needs_both_settings_and_the_root(
    path: Seq<u8>,
    identity: Option<Seq<char>>,
    setting: Option<Seq<char>>,
    root: Seq<u8>,
)
    ensures
        scoped_identity(path, identity, setting, root) is Some <==> present(identity) is Some
            && present(setting) is Some && under(path, root),
{
}

/// Two codebases under one root share an identity only if they lie at the same
/// place below it, so neither can take the root's collection nor the other's.
pub proof fn law_nested_codebases_do_not_alias(
    path1: Seq<u8>,
    path2: Seq<u8>,
    identity: Option<Seq<char>>,
    setting: Option<Seq<char>>,
    root: Seq<u8>,
)
    requires
        root.len() > 0,
        under(path1, root),
        under(path2, root),
        present(identity) is Some,
        present(setting) is Some,
        utf8_components(path1),
        utf8_components(path2),
    ensures
        scoped_identity(path1, identity, setting, root) == scoped_identity(
            path2,
            identity,
            setting,
            root,
        ) ==> components(path1) == components(path2),
{
    if scoped_identity(path1, identity, setting, root) == scoped_identity(
        path2,
        identity,
        setting,
        root,
    ) {
        let id = present(identity)->0;
        let a = relative_parts(path1, root);
        let b = relative_parts(path2, root);
        lemma_parts_hold_no_slash(path1, root);
        lemma_parts_hold_no_slash(path2, root);
        reveal_strlit("/");
        let x = scoped_identity(path1, identity, setting, root)->0;
        if a.len() == 0 || b.len() == 0 {
            assert(a.len() == 0 && b.len() == 0);
            assert(a =~= b);
        } else {
            assert(joined(a, "/"@) =~= x.skip((id.len() + 1) as int));
            assert(joined(b, "/"@) =~= x.skip((id.len() + 1) as int));
            lemma_joined_injective(a, b);
        }
        lemma_parts_determine_components(path1, path2, root);
    }
}

/// Two codebases under one root whose paths are UTF-8 share an identity only if
/// they lie at the same place below it.
pub proof fn law_nested_utf8_codebases_do_not_alias(
    path1: Seq<u8>,
    path2: Seq<u8>,
    identity: Option<Seq<char>>,
    setting: Option<Seq<char>>,
    root: Seq<u8>,
)
    requires
        root.len() > 0,
        under(path1, root),
        under(path2, root),
        present(identity) is Some,
        present(setting) is Some,
        valid_utf8(path1),
        valid_utf8(path2),
    ensures
        scoped_identity(path1, identity, setting, root) == scoped_identity(
            path2,
            identity,
            setting,
            root,
        ) ==> components(path1) == components(path2),
{
    assert forall|i: int| 0 <= i < components(path1).len() implies valid_utf8(
        #[trigger] components(path1)[i],
    ) by {
        lemma_components_are_utf8(path1, i);
    }
    assert forall|i: int| 0 <= i < components(path2).len() implies valid_utf8(
        #[trigger] components(path2)[i],
    ) by {
        lemma_components_are_utf8(path2, i);
    }
    law_nested_codebases_do_not_alias(path1, path2, identity, setting, root);
}

/// Every component is UTF-8.
pub open spec fn utf8_components(path: Seq<u8>) -> bool {
    forall|i: int| 0 <= i < components(path).len() ==> valid_utf8(#[trigger] components(path)[i])
}

/// No part holds a `/`.
pub open spec fn slash_free(parts: Seq<Seq<char>>) -> bool {
    forall|i: int| 0 <= i < parts.len() ==> !(#[trigger] parts[i]).contains('/')
}

proof fn lemma_parts_hold_no_slash(path: Seq<u8>, root: Seq<u8>)
    requires
        root.len() > 0,
        under(path, root),
        utf8_components(path),
    ensures
        slash_free(relative_parts(path, root)),
{
    let parts = relative_parts(path, root);
    lemma_some_component(root);
    let n = components(root).len();
    assert forall|i: int| 0 <= i < parts.len() implies !(#[trigger] parts[i]).contains('/') by {
        lemma_later_components_hold_no_slash(path, n + i);
        lemma_decoded_slash(components(path)[n + i]);
    }
}

proof fn lemma_parts_determine_components(path1: Seq<u8>, path2: Seq<u8>, root: Seq<u8>)
    requires
        under(path1, root),
        under(path2, root),
        utf8_components(path1),
        utf8_components(path2),
        relative_parts(path1, root) == relative_parts(path2, root),
    ensures
        components(path1) == components(path2),
{
    let a = components(path1);
    let b = components(path2);
    let n = components(root).len();
    assert(a.len() - n == relative_parts(path1, root).len());
    assert(b.len() - n == relative_parts(path2, root).len());
    assert forall|i: int| 0 <= i < a.len() implies a[i] == b[i] by {
        if i < n {
            assert(a.subrange(0, n as int)[i] == b.subrange(0, n as int)[i]);
        } else {
            assert(relative_parts(path1, root)[i - n] == relative_parts(path2, root)[i - n]);
            assert(valid_utf8(a[i]) && valid_utf8(b[i]));
            decode_utf8_encode_utf8(a[i]);
            decode_utf8_encode_utf8(b[i]);
        }
    }
    assert(a =~= b);
}

proof fn lemma_last_slash(left: Seq<char>, last: Seq<char>, left2: Seq<char>, last2: Seq<char>)
    requires
        left + seq!['/'] + last == left2 + seq!['/'] + last2,
        !last.contains('/'),
        !last2.contains('/'),
    ensures
        left == left2,
        last == last2,
{
    let a = left + seq!['/'] + last;
    let b = left2 + seq!['/'] + last2;
    assert(a.len() == left.len() + 1 + last.len());
    assert(b.len() == left2.len() + 1 + last2.len());
    if left.len() < left2.len() {
        assert(b[left2.len() as int] == '/');
        assert(a[left2.len() as int] == last[left2.len() - left.len() - 1]);
    } else if left2.len() < left.len() {
        assert(a[left.len() as int] == '/');
        assert(b[left.len() as int] == last2[left.len() - left2.len() - 1]);
    }
    assert(left =~= a.take(left.len() as int));
    assert(left2 =~= b.take(left2.len() as int));
    assert(last =~= a.skip((left.len() + 1) as int));
    assert(last2 =~= b.skip((left2.len() + 1) as int));
}

proof fn lemma_joined_injective(a: Seq<Seq<char>>, b: Seq<Seq<char>>)
    requires
        a.len() > 0,
        b.len() > 0,
        slash_free(a),
        slash_free(b),
        joined(a, "/"@) == joined(b, "/"@),
    ensures
        a == b,
    decreases a.len(),
{
    reveal_strlit("/");
    assert("/"@ =~= seq!['/']);
    if a.len() == 1 && b.len() == 1 {
        assert(a =~= b);
    } else if a.len() == 1 {
        let whole = joined(b.drop_last(), "/"@) + "/"@ + b.last();
        assert(whole[joined(b.drop_last(), "/"@).len() as int] == '/');
        assert(a[0].contains('/'));
    } else if b.len() == 1 {
        let whole = joined(a.drop_last(), "/"@) + "/"@ + a.last();
        assert(whole[joined(a.drop_last(), "/"@).len() as int] == '/');
        assert(b[0].contains('/'));
    } else {
        lemma_last_slash(
            joined(a.drop_last(), "/"@),
            a.last(),
            joined(b.drop_last(), "/"@),
            b.last(),
        );
        assert(slash_free(a.drop_last()));
        assert(slash_free(b.drop_last()));
        lemma_joined_injective(a.drop_last(), b.drop_last());
        assert(a =~= a.drop_last().push(a.last()));
        assert(b =~= b.drop_last().push(b.last()));
    }
}

proof fn lemma_trimmed_is_trimmed(s: Seq<char>)
    ensures
        crate::text::trimmed(crate::text::trimmed(s)) == crate::text::trimmed(s),
{
    crate::text::lemma_trimmed_ends(s);
}

/// A readable part keeps its ASCII letters and digits in their places, with an
/// underscore for anything else. One that is empty or starts with a digit gets an
/// underscore in front.
pub proof fn law_safe_prefix_keeps_letters_and_digits(prefix: Seq<char>, i: int)
    requires
        0 <= i < prefix.len(),
    ensures
        ({
            let point = prefix[i] as u32;
            let first = prefix[0] as u32;
            let shift: int = if 48 <= first <= 57 {
                1
            } else {
                0
            };
            let safe = safe_prefix(prefix);
            let plain = 48 <= point <= 57 || 65 <= point <= 90 || 97 <= point <= 122;
            &&& safe.len() == prefix.len() + shift
            &&& shift == 1 ==> safe[0] == '_'
            &&& plain ==> safe[i + shift] == prefix[i]
            &&& !plain ==> safe[i + shift] == '_'
        }),
        safe_prefix(Seq::empty()) =~= seq!['_'],
{
    let safe = Seq::new(prefix.len(), |k: int| safe_char(prefix[k]));
    law_digits_and_letters_by_code_points(prefix[i]);
    law_digits_and_letters_by_code_points(prefix[0]);
    assert(ascii_digit(safe[0]) == ascii_digit(prefix[0]));
    if ascii_digit(prefix[0]) {
        assert(safe_prefix(prefix) == seq!['_'] + safe);
        assert((seq!['_'] + safe)[i + 1] == safe[i]);
    } else {
        assert(safe_prefix(prefix) == safe);
    }
}

/// A name is the readable part, cut to what leaves room, an underscore, and the
/// digest part whole.
pub proof fn law_name_is_prefix_and_hash(prefix: Seq<char>, hash: Seq<char>)
    ensures
        safe_prefix(prefix).len() <= 238 ==> name_text(prefix, hash) == safe_prefix(prefix) + seq![
            '_',
        ] + hash,
        safe_prefix(prefix).len() > 238 ==> name_text(prefix, hash) == safe_prefix(prefix).take(238)
            + seq!['_'] + hash,
{
}

/// The digits in a name are sixteen, and give back the first eight bytes of the
/// digest.
pub proof fn law_digits_are_those_of_the_digest(digest: Seq<u8>, i: int)
    requires
        digest.len() >= 8,
        0 <= i < 8,
    ensures
        digest_digits(digest).len() == 16,
        digest_digits(digest)[2 * i] == hex_digit(digest[i] as int / 16),
        digest_digits(digest)[2 * i + 1] == hex_digit(digest[i] as int % 16),
{
    assert((2 * i) / 2 == i && (2 * i) % 2 == 0);
    assert((2 * i + 1) / 2 == i && (2 * i + 1) % 2 == 1);
}

/// A collection without an identity is named after the last component of its path,
/// and told apart by the digest of the whole path. A path that has no such component
/// lends no name.
pub proof fn law_collection_is_named_after_its_path(root: Seq<u8>, name: Seq<char>)
    requires
        root.len() > 0,
        plain_name(encode_utf8(name)),
        encode_utf8(name) != seq![DOT, DOT],
    ensures
        ({
            let path = path_join(root, encode_utf8(name));
            collection_name(path, None) == name_text(
                name,
                hex_text(sha256_digest(encode_utf8(path_text(path)))).take(16),
            )
        }),
        collection_name(seq![SLASH], None) == name_text(
            "collection"@,
            hex_text(sha256_digest(encode_utf8(path_text(seq![SLASH])))).take(16),
        ),
{
    law_file_name_text_is_the_name(root, name);
    law_file_name_is_the_name_joined_last(root, encode_utf8(name));
}

/// A collection with an identity is told apart by the digest of the identity,
/// without the white space around it.
pub proof fn law_identity_is_hashed_trimmed(
    path: Seq<u8>,
    lead: Seq<char>,
    id: Seq<char>,
    tail: Seq<char>,
)
    requires
        forall|i: int| 0 <= i < lead.len() ==> white_space(#[trigger] lead[i]),
        forall|i: int| 0 <= i < tail.len() ==> white_space(#[trigger] tail[i]),
        id.len() > 0,
        !white_space(id[0]),
        !white_space(id.last()),
    ensures
        hashed_text(path, Some(lead + id + tail)) == id,
        hashed_text(path, None) == path_text(path),
        ({
            let name = collection_name(path, Some(lead + id + tail));
            let digits = hex_text(sha256_digest(encode_utf8(id))).take(16);
            name == collection_name(path, Some(id)) && exists|prefix: Seq<char>| #[trigger]
                name_text(prefix, digits) == name
        }),
{
    law_trimming_strips_the_ends(lead, id, tail);
    law_trimming_strips_the_ends(Seq::empty(), id, Seq::empty());
    assert(Seq::<char>::empty() + id + Seq::<char>::empty() =~= id);
    let given = Some(lead + id + tail);
    let digits = hex_text(sha256_digest(encode_utf8(id))).take(16);
    assert(name_text(prefix_text(path, given), digits) == collection_name(path, given));
}

/// The readable part for an identity is its last path component, and one without a
/// slash is its own.
pub proof fn law_identity_lends_its_last_component(
    path: Seq<u8>,
    root: Seq<u8>,
    id: Seq<char>,
    name: Seq<char>,
)
    requires
        name.len() > 0,
        !white_space(name[0]),
        !white_space(name.last()),
        plain_name(encode_utf8(name)),
        encode_utf8(name) != seq![DOT, DOT],
        root.len() > 0,
        encode_utf8(id) == path_join(root, encode_utf8(name)),
        trimmed_or_none(id) == Some(id),
    ensures
        identity_prefix_text(id) == Some(name),
        prefix_text(path, Some(id)) == name,
        identity_prefix_text(name) == Some(name),
        prefix_text(path, Some(name)) == name,
{
    law_trimming_strips_the_ends(Seq::empty(), name, Seq::empty());
    assert(Seq::<char>::empty() + name + Seq::<char>::empty() =~= name);
    law_file_name_text_is_the_name(root, name);
    let bytes = encode_utf8(name);
    law_components_of_a_relative_path(seq![bytes]);
    assert(spelled(seq![bytes]) == bytes);
    assert(components(bytes).last() == bytes);
    encode_utf8_valid_utf8(name);
    encode_utf8_decode_utf8(name);
}

/// Below its root a codebase has the configured identity, a slash, and the names on
/// the way to it with a slash between neighbours.
pub proof fn law_scoped_identity_spells_the_way(
    root: Seq<u8>,
    names: Seq<Seq<u8>>,
    identity: Option<Seq<char>>,
    setting: Option<Seq<char>>,
)
    requires
        root.len() > 0,
        names.len() > 0,
        forall|i: int| 0 <= i < names.len() ==> plain_name(#[trigger] names[i]),
        present(identity) is Some,
        present(setting) is Some,
    ensures
        scoped_identity(path_join(root, spelled(names)), identity, setting, root) == Some(
            present(identity)->0 + "/"@ + joined(
                Seq::new(names.len(), |i: int| path_text(names[i])),
                "/"@,
            ),
        ),
{
    law_relative_undoes_join(root, names);
}

/// A setting counts trimmed, and only where something is left of it.
pub proof fn law_setting_counts_trimmed(lead: Seq<char>, text: Seq<char>, tail: Seq<char>)
    requires
        forall|i: int| 0 <= i < lead.len() ==> white_space(#[trigger] lead[i]),
        forall|i: int| 0 <= i < tail.len() ==> white_space(#[trigger] tail[i]),
        text.len() > 0,
        !white_space(text[0]),
        !white_space(text.last()),
    ensures
        present(Some(lead + text + tail)) == Some(text),
        present(Some(lead)) is None,
        present(None) is None,
        resolved_root(None, Some(lead + text + tail)) == encode_utf8(text),
        resolved_root(None, None) == Seq::<u8>::empty(),
{
    law_trimming_strips_the_ends(lead, text, tail);
    law_trimming_white_space_leaves_nothing(lead);
}

/// A path that could be resolved counts as resolved, and any other as given.
pub proof fn law_resolved_path_counts(
    found: Seq<u8>,
    given: Seq<u8>,
    setting: Option<Seq<char>>,
)
    ensures
        resolved(Some(found), given) == found,
        resolved(None, given) == given,
        resolved_root(Some(found), setting) == found,
{
}

/// The filter names one path after another, each as a JSON string, in brackets.
pub proof fn law_filter_names_the_paths(paths: Seq<Seq<char>>, path: Seq<char>)
    ensures
        relative_path_filter(seq![path]) == "metadata[\"relative_path\"] in ["@ + json_string(path)
            + "]"@,
        paths.len() > 0 ==> relative_path_filter(paths.push(path)) == relative_path_filter(
            paths,
        ).drop_last() + ", "@ + json_string(path) + "]"@,
{
    reveal_strlit("]");
    let spell = |ps: Seq<Seq<char>>| Seq::new(ps.len(), |i: int| json_string(ps[i]));
    law_joined_keeps_the_parts(Seq::empty(), Seq::empty(), json_string(path), ", "@);
    assert(spell(seq![path]) =~= seq![json_string(path)]);
    if paths.len() > 0 {
        assert(spell(paths.push(path)) =~= spell(paths) + seq![json_string(path)]);
        law_joined_keeps_the_parts(
            spell(paths),
            seq![json_string(path)],
            json_string(path),
            ", "@,
        );
        let front = "metadata[\"relative_path\"] in ["@ + joined(spell(paths), ", "@);
        assert(relative_path_filter(paths) == front + "]"@);
        assert((front + "]"@).drop_last() =~= front);
        assert(relative_path_filter(paths.push(path)) =~= front + ", "@ + json_string(path) + "]"@);
    }
}

proof fn lemma_first_of_joined(parts: Seq<Seq<char>>)
    requires
        parts.len() > 0,
    ensures
        joined(parts, ", "@) + "]"@ =~= parts[0] + (if parts.len() == 1 {
            "]"@
        } else {
            ", "@ + (joined(parts.skip(1), ", "@) + "]"@)
        }),
{
    let one = seq![parts[0]];
    let rest = parts.skip(1);
    assert(one + rest =~= parts);
    law_joined_keeps_the_parts(one, rest, parts[0], ", "@);
    if parts.len() == 1 {
        assert(parts =~= one);
    }
}

proof fn lemma_lists_differ(a: Seq<Seq<char>>, b: Seq<Seq<char>>)
    requires
        joined(Seq::new(a.len(), |i: int| json_string(a[i])), ", "@) + "]"@ == joined(
            Seq::new(b.len(), |i: int| json_string(b[i])),
            ", "@,
        ) + "]"@,
    ensures
        a == b,
    decreases a.len(),
{
    reveal_strlit("]");
    reveal_strlit(", ");
    let left = Seq::new(a.len(), |i: int| json_string(a[i]));
    let right = Seq::new(b.len(), |i: int| json_string(b[i]));
    let x = joined(left, ", "@) + "]"@;
    let y = joined(right, ", "@) + "]"@;
    if a.len() > 0 {
        lemma_first_of_joined(left);
        assert(x[0] == json_string(a[0])[0]);
    } else {
        assert(x[0] == ']');
    }
    if b.len() > 0 {
        lemma_first_of_joined(right);
        assert(y[0] == json_string(b[0])[0]);
    } else {
        assert(y[0] == ']');
    }
    if a.len() > 0 && b.len() > 0 {
        let tail_x = if a.len() == 1 {
            "]"@
        } else {
            ", "@ + (joined(left.skip(1), ", "@) + "]"@)
        };
        let tail_y = if b.len() == 1 {
            "]"@
        } else {
            ", "@ + (joined(right.skip(1), ", "@) + "]"@)
        };
        assert(json_string(a[0]) + tail_x == json_string(b[0]) + tail_y);
        law_json_string_injective(a[0], b[0], tail_x, tail_y);
        assert(tail_x[0] == tail_y[0]);
        if a.len() > 1 && b.len() > 1 {
            assert(left.skip(1) =~= Seq::new(a.skip(1).len(), |i: int| json_string(a.skip(1)[i])));
            assert(right.skip(1) =~= Seq::new(b.skip(1).len(), |i: int| json_string(b.skip(1)[i])));
            assert(joined(left.skip(1), ", "@) + "]"@ =~= tail_x.skip(2));
            assert(joined(right.skip(1), ", "@) + "]"@ =~= tail_y.skip(2));
            lemma_lists_differ(a.skip(1), b.skip(1));
            assert(a =~= seq![a[0]] + a.skip(1));
            assert(b =~= seq![b[0]] + b.skip(1));
        } else {
            assert(a =~= b);
        }
    } else {
        assert(a =~= b);
    }
}

/// Two filters are the same only for the same paths in the same order.
pub proof fn law_filter_tells_paths_apart(a: Seq<Seq<char>>, b: Seq<Seq<char>>)
    requires
        relative_path_filter(a) == relative_path_filter(b),
    ensures
        a == b,
{
    let n = "metadata[\"relative_path\"] in ["@.len() as int;
    let x = joined(Seq::new(a.len(), |i: int| json_string(a[i])), ", "@) + "]"@;
    let y = joined(Seq::new(b.len(), |i: int| json_string(b[i])), ", "@) + "]"@;
    assert(relative_path_filter(a).skip(n) =~= x);
    assert(relative_path_filter(b).skip(n) =~= y);
    lemma_lists_differ(a, b);
}

/// A path whose last component is not UTF-8, or leads up, lends no name to its
/// collection.
pub proof fn law_unnamed_path_lends_no_name(root: Seq<u8>, name: Seq<u8>)
    requires
        root.len() > 0,
        plain_name(name),
        !valid_utf8(name) || name == seq![DOT, DOT],
    ensures
        prefix_text(path_join(root, name), None) == "collection"@,
{
    law_file_name_is_the_name_joined_last(root, name);
}

/// An identity whose last component is blank, or leads up, lends itself whole.
pub proof fn law_unnamed_identity_lends_itself(path: Seq<u8>, identity: Seq<char>)
    requires
        trimmed_or_none(identity) == Some(identity),
        present(file_name_text(encode_utf8(identity))) is None,
    ensures
        prefix_text(path, Some(identity)) == identity,
{
}

} // verus!
