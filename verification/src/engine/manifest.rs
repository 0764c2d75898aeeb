//! What the manifest of an index tells: which files changed since it was written,
//! and which provenance record belongs to it.

use crate::encoding::{hex_digit, hex_encode, hex_text, sha256, sha256_digest};
use crate::engine::indexer::ManifestDiff;
use crate::text::{same_text, view_opt, views};
use vstd::prelude::*;

verus! {

/// A file as a manifest knows it.
#[derive(Debug)]
pub struct Fingerprint {
    pub relative_path: String,
    /// The digest of its content.
    pub sha256: String,
}

#[verifier::ext_equal]
pub struct FingerprintView {
    pub relative_path: Seq<char>,
    pub sha256: Seq<char>,
}

impl View for Fingerprint {
    type V = FingerprintView;

    open spec fn view(&self) -> FingerprintView {
        FingerprintView { relative_path: self.relative_path@, sha256: self.sha256@ }
    }
}

/// Some of the files is at `path`.
pub open spec fn lists(files: Seq<FingerprintView>, path: Seq<char>) -> bool {
    exists|i: int| 0 <= i < files.len() && (#[trigger] files[i]).relative_path == path
}

/// The digest that is listed for `path`, the first where there are several.
pub open spec fn digest_of(files: Seq<FingerprintView>, path: Seq<char>) -> Option<Seq<char>>
    decreases files.len(),
{
    if files.len() == 0 {
        None
    } else {
        match digest_of(files.drop_last(), path) {
            Some(digest) => Some(digest),
            None => if files.last().relative_path == path {
                Some(files.last().sha256)
            } else {
                None
            },
        }
    }
}

/// A file that was not there before.
pub open spec fn is_added(before: Seq<FingerprintView>, file: FingerprintView) -> bool {
    digest_of(before, file.relative_path) is None
}

/// A file that had another digest before.
pub open spec fn is_modified(before: Seq<FingerprintView>, file: FingerprintView) -> bool {
    match digest_of(before, file.relative_path) {
        Some(digest) => digest != file.sha256,
        None => false,
    }
}

/// The paths of the files that `picks` picks, in order.
pub open spec fn paths_where(
    files: Seq<FingerprintView>,
    picks: spec_fn(FingerprintView) -> bool,
) -> Seq<Seq<char>>
    decreases files.len(),
{
    if files.len() == 0 {
        Seq::empty()
    } else {
        let earlier = paths_where(files.drop_last(), picks);
        if picks(files.last()) {
            earlier.push(files.last().relative_path)
        } else {
            earlier
        }
    }
}

pub open spec fn added_paths(before: Seq<FingerprintView>, now: Seq<FingerprintView>) -> Seq<
    Seq<char>,
> {
    paths_where(now, |file: FingerprintView| is_added(before, file))
}

pub open spec fn modified_paths(before: Seq<FingerprintView>, now: Seq<FingerprintView>) -> Seq<
    Seq<char>,
> {
    paths_where(now, |file: FingerprintView| is_modified(before, file))
}

pub open spec fn deleted_paths(before: Seq<FingerprintView>, now: Seq<FingerprintView>) -> Seq<
    Seq<char>,
> {
    paths_where(before, |file: FingerprintView| is_added(now, file))
}

fn find_digest<'a>(files: &'a [Fingerprint], path: &str) -> (r: Option<&'a str>)
    ensures
        view_opt(r) == digest_of(views(files@), path@),
{
    let ghost all = views(files@);
    let mut i: usize = 0;
    assert(all.take(0) =~= Seq::empty());
    while i < files.len()
        invariant
            i <= files@.len(),
            all == views(files@),
            digest_of(all.take(i as int), path@) is None,
        decreases files@.len() - i,
    {
        proof {
            assert(all.take(i + 1).drop_last() =~= all.take(i as int));
            assert(all.take(i + 1).last() == files@[i as int]@);
        }
        if same_text(files[i].relative_path.as_str(), path) {
            proof {
                lemma_digest_of_prefix(all, i + 1, path@);
            }
            return Some(files[i].sha256.as_str());
        }
        i += 1;
    }
    assert(all.take(all.len() as int) =~= all);
    None
}

proof fn lemma_digest_of_prefix(files: Seq<FingerprintView>, n: int, path: Seq<char>)
    requires
        0 <= n <= files.len(),
        digest_of(files.take(n), path) is Some,
    ensures
        digest_of(files, path) == digest_of(files.take(n), path),
    decreases files.len(),
{
    if n < files.len() {
        assert(files.drop_last().take(n) =~= files.take(n));
        lemma_digest_of_prefix(files.drop_last(), n, path);
    } else {
        assert(files.take(n) =~= files);
    }
}

/// Compares the files as they are with those of a manifest.
pub fn compare_files(before: &[Fingerprint], now: &[Fingerprint]) -> (r: ManifestDiff)
    ensures
        views(r.added@) == added_paths(views(before@), views(now@)),
        views(r.modified@) == modified_paths(views(before@), views(now@)),
        views(r.deleted@) == deleted_paths(views(before@), views(now@)),
{
    let ghost old_files = views(before@);
    let ghost new_files = views(now@);
    let ghost adds = |file: FingerprintView| is_added(old_files, file);
    let ghost modifies = |file: FingerprintView| is_modified(old_files, file);
    let ghost deletes = |file: FingerprintView| is_added(new_files, file);
    let mut added: Vec<String> = Vec::new();
    let mut modified: Vec<String> = Vec::new();
    let mut deleted: Vec<String> = Vec::new();
    assert(new_files.take(0) =~= Seq::empty());
    assert(old_files.take(0) =~= Seq::empty());
    assert(views(added@) =~= Seq::empty());
    assert(views(modified@) =~= Seq::empty());
    assert(views(deleted@) =~= Seq::empty());
    let mut i: usize = 0;
    while i < now.len()
        invariant
            i <= now@.len(),
            old_files == views(before@),
            new_files == views(now@),
            adds == (|file: FingerprintView| is_added(old_files, file)),
            modifies == (|file: FingerprintView| is_modified(old_files, file)),
            views(added@) == paths_where(new_files.take(i as int), adds),
            views(modified@) == paths_where(new_files.take(i as int), modifies),
        decreases now@.len() - i,
    {
        proof {
            assert(new_files.take(i + 1).drop_last() =~= new_files.take(i as int));
            assert(new_files.take(i + 1).last() == now@[i as int]@);
        }
        match find_digest(before, now[i].relative_path.as_str()) {
            None => {
                let path = now[i].relative_path.clone();
                proof {
                    crate::text::lemma_views_push(added@, path);
                }
                added.push(path);
            },
            Some(digest) => {
                if !same_text(digest, now[i].sha256.as_str()) {
                    let path = now[i].relative_path.clone();
                    proof {
                        crate::text::lemma_views_push(modified@, path);
                    }
                    modified.push(path);
                }
            },
        }
        i += 1;
    }
    let mut j: usize = 0;
    while j < before.len()
        invariant
            j <= before@.len(),
            old_files == views(before@),
            new_files == views(now@),
            deletes == (|file: FingerprintView| is_added(new_files, file)),
            views(deleted@) == paths_where(old_files.take(j as int), deletes),
        decreases before@.len() - j,
    {
        proof {
            assert(old_files.take(j + 1).drop_last() =~= old_files.take(j as int));
            assert(old_files.take(j + 1).last() == before@[j as int]@);
        }
        if find_digest(now, before[j].relative_path.as_str()).is_none() {
            let path = before[j].relative_path.clone();
            proof {
                crate::text::lemma_views_push(deleted@, path);
            }
            deleted.push(path);
        }
        j += 1;
    }
    assert(new_files.take(new_files.len() as int) =~= new_files);
    assert(old_files.take(old_files.len() as int) =~= old_files);
    ManifestDiff { added, modified, deleted }
}

proof fn lemma_digest_of_listed(files: Seq<FingerprintView>, path: Seq<char>)
    ensures
        digest_of(files, path) is Some <==> lists(files, path),
    decreases files.len(),
{
    if files.len() > 0 {
        let fewer = files.drop_last();
        lemma_digest_of_listed(fewer, path);
        if lists(fewer, path) {
            let i = choose|i: int| 0 <= i < fewer.len() && (#[trigger] fewer[i]).relative_path == path;
            assert(files[i].relative_path == path);
        }
        if lists(files, path) && files.last().relative_path != path {
            let i = choose|i: int| 0 <= i < files.len() && (#[trigger] files[i]).relative_path == path;
            assert(fewer[i].relative_path == path);
        }
        if files.last().relative_path == path {
            assert(files[files.len() - 1].relative_path == path);
        }
    }
}

proof fn lemma_paths_where(
    files: Seq<FingerprintView>,
    picks: spec_fn(FingerprintView) -> bool,
    path: Seq<char>,
)
    ensures
        paths_where(files, picks).contains(path) <==> exists|i: int|
            0 <= i < files.len() && (#[trigger] files[i]).relative_path == path && picks(files[i]),
    decreases files.len(),
{
    if files.len() > 0 {
        let fewer = files.drop_last();
        let earlier = paths_where(fewer, picks);
        let all = paths_where(files, picks);
        lemma_paths_where(fewer, picks, path);
        if earlier.contains(path) {
            let i = choose|i: int|
                0 <= i < fewer.len() && (#[trigger] fewer[i]).relative_path == path && picks(
                    fewer[i],
                );
            assert(files[i].relative_path == path && picks(files[i]));
            let k = earlier.index_of(path);
            assert(all[k] == path);
        }
        if picks(files.last()) {
            assert(all[earlier.len() as int] == files.last().relative_path);
            assert(files[files.len() - 1] == files.last());
        }
        if exists|i: int|
            0 <= i < files.len() && (#[trigger] files[i]).relative_path == path && picks(files[i]) {
            let i = choose|i: int|
                0 <= i < files.len() && (#[trigger] files[i]).relative_path == path && picks(
                    files[i],
                );
            if i < fewer.len() {
                assert(fewer[i].relative_path == path && picks(fewer[i]));
            }
        }
        if all.contains(path) && !earlier.contains(path) {
            let k = all.index_of(path);
            if k < earlier.len() {
                assert(earlier[k] == path);
            }
        }
    }
}

/// A comparison finds a path added where it is listed now and was not before,
/// deleted where it was and is no more, and modified where some file is listed
/// there now with another digest than before.
pub proof fn law_comparison_finds_what_changed(
    before: Seq<FingerprintView>,
    now: Seq<FingerprintView>,
    path: Seq<char>,
)
    ensures
        added_paths(before, now).contains(path) <==> lists(now, path) && !lists(before, path),
        deleted_paths(before, now).contains(path) <==> lists(before, path) && !lists(now, path),
        modified_paths(before, now).contains(path) <==> exists|i: int|
            0 <= i < now.len() && (#[trigger] now[i]).relative_path == path && is_modified(
                before,
                now[i],
            ),
{
    let adds = |file: FingerprintView| is_added(before, file);
    let modifies = |file: FingerprintView| is_modified(before, file);
    let deletes = |file: FingerprintView| is_added(now, file);
    lemma_digest_of_listed(before, path);
    lemma_digest_of_listed(now, path);
    lemma_paths_where(now, adds, path);
    lemma_paths_where(now, modifies, path);
    lemma_paths_where(before, deletes, path);
    if lists(now, path) && !lists(before, path) {
        let i = choose|i: int| 0 <= i < now.len() && (#[trigger] now[i]).relative_path == path;
        assert(adds(now[i]));
    }
    if lists(before, path) && !lists(now, path) {
        let i = choose|i: int| 0 <= i < before.len() && (#[trigger] before[i]).relative_path == path;
        assert(deletes(before[i]));
    }
    if exists|i: int|
        0 <= i < now.len() && (#[trigger] now[i]).relative_path == path && is_modified(
            before,
            now[i],
        ) {
        let i = choose|i: int|
            0 <= i < now.len() && (#[trigger] now[i]).relative_path == path && is_modified(
                before,
                now[i],
            );
        assert(modifies(now[i]));
    }
}

/// A path is in at most one of the three lists.
pub proof fn law_lists_of_changes_are_disjoint(
    before: Seq<FingerprintView>,
    now: Seq<FingerprintView>,
    path: Seq<char>,
)
    ensures
        !(added_paths(before, now).contains(path) && modified_paths(before, now).contains(path)),
        !(added_paths(before, now).contains(path) && deleted_paths(before, now).contains(path)),
        !(modified_paths(before, now).contains(path) && deleted_paths(before, now).contains(path)),
{
    law_comparison_finds_what_changed(before, now, path);
    lemma_digest_of_listed(before, path);
}

/// Files that did not change give an empty comparison.
pub proof fn law_unchanged_files_compare_empty(files: Seq<FingerprintView>)
    requires
        forall|i: int, j: int|
            0 <= i < j < files.len() ==> (#[trigger] files[i]).relative_path != (
            #[trigger] files[j]).relative_path,
    ensures
        added_paths(files, files).len() == 0,
        modified_paths(files, files).len() == 0,
        deleted_paths(files, files).len() == 0,
{
    let adds = |file: FingerprintView| is_added(files, file);
    let modifies = |file: FingerprintView| is_modified(files, file);
    assert forall|i: int| 0 <= i < files.len() implies digest_of(
        files,
        (#[trigger] files[i]).relative_path,
    ) == Some(files[i].sha256) by {
        lemma_digest_of_distinct(files, i);
    }
    lemma_none_picked(files, adds);
    lemma_none_picked(files, modifies);
}

proof fn lemma_digest_of_distinct(files: Seq<FingerprintView>, i: int)
    requires
        0 <= i < files.len(),
        forall|i: int, j: int|
            0 <= i < j < files.len() ==> (#[trigger] files[i]).relative_path != (
            #[trigger] files[j]).relative_path,
    ensures
        digest_of(files, files[i].relative_path) == Some(files[i].sha256),
{
    let path = files[i].relative_path;
    let front = files.take(i + 1);
    assert(front.drop_last() =~= files.take(i));
    lemma_digest_of_listed(files.take(i), path);
    if lists(files.take(i), path) {
        let k = choose|k: int|
            0 <= k < files.take(i).len() && (#[trigger] files.take(i)[k]).relative_path == path;
        assert(files[k].relative_path == files[i].relative_path);
    }
    lemma_digest_of_prefix(files, i + 1, path);
}

proof fn lemma_none_picked(files: Seq<FingerprintView>, picks: spec_fn(FingerprintView) -> bool)
    requires
        forall|i: int| 0 <= i < files.len() ==> !picks(#[trigger] files[i]),
    ensures
        paths_where(files, picks).len() == 0,
    decreases files.len(),
{
    if files.len() > 0 {
        assert(!picks(files[files.len() - 1]));
        assert forall|i: int| 0 <= i < files.drop_last().len() implies !picks(
            #[trigger] files.drop_last()[i],
        ) by {
            assert(!picks(files[i]));
        }
        lemma_none_picked(files.drop_last(), picks);
    }
}

/// The backend that an index was built against, bound to the manifest of the
/// time by its digest.
#[derive(Debug)]
pub struct BackendRecord {
    pub backend: String,
    pub manifest_sha256: String,
}

/// The backend that a record names for a manifest with the given digest: a record
/// of another manifest counts for nothing.
pub open spec fn named_backend(
    backend: Seq<char>,
    recorded_digest: Seq<char>,
    digest: Seq<char>,
) -> Option<Seq<char>> {
    if recorded_digest == digest {
        Some(backend)
    } else {
        None
    }
}

/// The digest of a manifest, in hexadecimal digits.
pub open spec fn manifest_digest(manifest: Seq<u8>) -> Seq<char> {
    hex_text(sha256_digest(manifest))
}

fn digest_text(manifest: &[u8]) -> (r: String)
    ensures
        r@ == manifest_digest(manifest@),
{
    let digest = sha256(manifest);
    hex_encode(digest.as_slice())
}

impl BackendRecord {
    /// The record of a backend for a manifest.
    pub fn new(backend: &str, manifest: &[u8]) -> (r: Self)
        ensures
            r.backend@ == backend@,
            r.manifest_sha256@ == manifest_digest(manifest@),
    {
        BackendRecord { backend: backend.to_owned(), manifest_sha256: digest_text(manifest) }
    }

    /// The backend, if the manifest has the given digest.
    pub fn backend_for_digest(&self, digest: &str) -> (r: Option<String>)
        ensures
            view_opt(r) == named_backend(self.backend@, self.manifest_sha256@, digest@),
    {
        if same_text(self.manifest_sha256.as_str(), digest) {
            Some(self.backend.clone())
        } else {
            None
        }
    }

    /// The backend, if the record was made for this manifest.
    pub fn backend_for(&self, manifest: &[u8]) -> (r: Option<String>)
        ensures
            view_opt(r) == named_backend(
                self.backend@,
                self.manifest_sha256@,
                manifest_digest(manifest@),
            ),
    {
        let digest = digest_text(manifest);
        self.backend_for_digest(digest.as_str())
    }
}

/// A record gives back its backend for the manifest it was made for, and for no
/// manifest with another digest.
pub proof fn law_record_counts_with_its_own_manifest(
    backend: Seq<char>,
    recorded_for: Seq<u8>,
    manifest: Seq<u8>,
)
    ensures
        named_backend(backend, manifest_digest(recorded_for), manifest_digest(recorded_for))
            == Some(backend),
        manifest_digest(recorded_for) != manifest_digest(manifest) ==> named_backend(
            backend,
            manifest_digest(recorded_for),
            manifest_digest(manifest),
        ) is None,
{
}

/// A path is modified exactly where it is listed before and now with two different
/// digests, as long as each path is listed once.
pub proof fn law_modified_means_another_digest(
    before: Seq<FingerprintView>,
    now: Seq<FingerprintView>,
    path: Seq<char>,
)
    requires
        forall|i: int, j: int|
            0 <= i < j < before.len() ==> (#[trigger] before[i]).relative_path != (
            #[trigger] before[j]).relative_path,
    ensures
        modified_paths(before, now).contains(path) <==> exists|i: int, j: int|
            0 <= i < before.len() && 0 <= j < now.len() && (#[trigger] before[i]).relative_path
                == path && (#[trigger] now[j]).relative_path == path && before[i].sha256
                != now[j].sha256,
{
    let modifies = |file: FingerprintView| is_modified(before, file);
    lemma_paths_where(now, modifies, path);
    assert forall|i: int| 0 <= i < before.len() implies digest_of(
        before,
        (#[trigger] before[i]).relative_path,
    ) == Some(before[i].sha256) by {
        lemma_digest_of_distinct(before, i);
    }
    lemma_digest_of_listed(before, path);
    if modified_paths(before, now).contains(path) {
        let j = choose|j: int|
            0 <= j < now.len() && (#[trigger] now[j]).relative_path == path && modifies(now[j]);
        let i = choose|i: int| 0 <= i < before.len() && (#[trigger] before[i]).relative_path == path;
        assert(digest_of(before, before[i].relative_path) == Some(before[i].sha256));
        assert(before[i].sha256 != now[j].sha256);
    }
    if exists|i: int, j: int|
        0 <= i < before.len() && 0 <= j < now.len() && (#[trigger] before[i]).relative_path == path
            && (#[trigger] now[j]).relative_path == path && before[i].sha256 != now[j].sha256 {
        let (i, j) = choose|i: int, j: int|
            0 <= i < before.len() && 0 <= j < now.len() && (#[trigger] before[i]).relative_path
                == path && (#[trigger] now[j]).relative_path == path && before[i].sha256
                != now[j].sha256;
        assert(digest_of(before, before[i].relative_path) == Some(before[i].sha256));
        assert(modifies(now[j]));
    }
}

/// Where a path is listed more than once before, the first listing counts.
pub proof fn law_first_listed_digest_counts(
    before: Seq<FingerprintView>,
    file: FingerprintView,
    i: int,
)
    requires
        0 <= i < before.len(),
        before[i].relative_path == file.relative_path,
        forall|k: int|
            0 <= k < i ==> (#[trigger] before[k]).relative_path != file.relative_path,
    ensures
        before[i].sha256 == file.sha256 ==> modified_paths(before, seq![file]) =~= Seq::<
            Seq<char>,
        >::empty(),
        before[i].sha256 != file.sha256 ==> modified_paths(before, seq![file]) =~= seq![
            file.relative_path,
        ],
        added_paths(before, seq![file]) =~= Seq::<Seq<char>>::empty(),
{
    let path = file.relative_path;
    let front = before.take(i + 1);
    assert(front.drop_last() =~= before.take(i));
    lemma_digest_of_listed(before.take(i), path);
    if lists(before.take(i), path) {
        let k = choose|k: int|
            0 <= k < before.take(i).len() && (#[trigger] before.take(i)[k]).relative_path == path;
        assert(before[k].relative_path == path);
    }
    lemma_digest_of_prefix(before, i + 1, path);
    let adds = |f: FingerprintView| is_added(before, f);
    let modifies = |f: FingerprintView| is_modified(before, f);
    lemma_paths_where_single(file, adds);
    lemma_paths_where_single(file, modifies);
}

proof fn lemma_paths_where_single(
    file: FingerprintView,
    picks: spec_fn(FingerprintView) -> bool,
)
    ensures
        paths_where(seq![file], picks) =~= (if picks(file) {
            seq![file.relative_path]
        } else {
            Seq::empty()
        }),
{
    let one = seq![file];
    assert(one.drop_last() =~= Seq::empty());
    assert(one.last() == file);
    assert(paths_where(one.drop_last(), picks) =~= Seq::empty());
}

proof fn lemma_paths_where_concat(
    first: Seq<FingerprintView>,
    second: Seq<FingerprintView>,
    picks: spec_fn(FingerprintView) -> bool,
)
    ensures
        paths_where(first + second, picks) =~= paths_where(first, picks) + paths_where(
            second,
            picks,
        ),
    decreases second.len(),
{
    if second.len() == 0 {
        assert(first + second =~= first);
    } else {
        assert((first + second).drop_last() =~= first + second.drop_last());
        assert((first + second).last() == second.last());
        lemma_paths_where_concat(first, second.drop_last(), picks);
    }
}

/// The lists of changes are in the order of the files: those of some files, and
/// then of others, are the one after the other.
pub proof fn law_changes_are_listed_in_order(
    before: Seq<FingerprintView>,
    now: Seq<FingerprintView>,
    more: Seq<FingerprintView>,
)
    ensures
        added_paths(before, now + more) =~= added_paths(before, now) + added_paths(before, more),
        modified_paths(before, now + more) =~= modified_paths(before, now) + modified_paths(
            before,
            more,
        ),
        deleted_paths(before + more, now) =~= deleted_paths(before, now) + deleted_paths(
            more,
            now,
        ),
{
    lemma_paths_where_concat(now, more, |file: FingerprintView| is_added(before, file));
    lemma_paths_where_concat(now, more, |file: FingerprintView| is_modified(before, file));
    lemma_paths_where_concat(before, more, |file: FingerprintView| is_added(now, file));
}

/// A file that is not listed before is added once, and is not modified; one that
/// is not listed now is deleted once.
pub proof fn law_unlisted_file_is_added_or_deleted(
    files: Seq<FingerprintView>,
    file: FingerprintView,
)
    requires
        forall|k: int|
            0 <= k < files.len() ==> (#[trigger] files[k]).relative_path != file.relative_path,
    ensures
        added_paths(files, seq![file]) =~= seq![file.relative_path],
        modified_paths(files, seq![file]) =~= Seq::<Seq<char>>::empty(),
        deleted_paths(seq![file], files) =~= seq![file.relative_path],
{
    lemma_digest_of_listed(files, file.relative_path);
    lemma_paths_where_single(file, |f: FingerprintView| is_added(files, f));
    lemma_paths_where_single(file, |f: FingerprintView| is_modified(files, f));
}

/// A record names its backend for its own digest, whatever the digest, and none
/// for another.
pub proof fn law_record_counts_with_its_own_digest(
    backend: Seq<char>,
    recorded_digest: Seq<char>,
    digest: Seq<char>,
)
    ensures
        named_backend(backend, digest, digest) == Some(backend),
        recorded_digest != digest ==> named_backend(backend, recorded_digest, digest) is None,
{
}

/// The digest of a manifest is its SHA-256 digest, two hexadecimal digits to the byte.
pub proof fn law_manifest_digest_spells_the_digest(manifest: Seq<u8>, i: int)
    requires
        0 <= i < sha256_digest(manifest).len(),
    ensures
        manifest_digest(manifest).len() == 2 * sha256_digest(manifest).len(),
        manifest_digest(manifest)[2 * i] == hex_digit(sha256_digest(manifest)[i] as int / 16),
        manifest_digest(manifest)[2 * i + 1] == hex_digit(sha256_digest(manifest)[i] as int % 16),
{
    assert((2 * i) / 2 == i && (2 * i) % 2 == 0);
    assert((2 * i + 1) / 2 == i && (2 * i + 1) % 2 == 1);
}

/// What comparing two manifests that list each path once gives: a path is reported
/// modified exactly where the two list it with different digests, added where only the
/// new one lists it, and deleted where only the old one does.
pub proof fn law_compare_files_reports_what_changed(
    before: &[Fingerprint],
    now: &[Fingerprint],
    r: ManifestDiff,
    path: Seq<char>,
)
    requires
        call_ensures(compare_files, (before, now), r),
        forall|i: int, j: int|
            0 <= i < j < before@.len() ==> (#[trigger] before@[i]).relative_path@ != (
            #[trigger] before@[j]).relative_path@,
    ensures
        views(r.modified@).contains(path) <==> exists|i: int, j: int|
            0 <= i < before@.len() && 0 <= j < now@.len() && (#[trigger] before@[i]).relative_path@
                == path && (#[trigger] now@[j]).relative_path@ == path && before@[i].sha256@
                != now@[j].sha256@,
        views(r.added@).contains(path) <==> (exists|j: int|
            0 <= j < now@.len() && (#[trigger] now@[j]).relative_path@ == path) && !(exists|i: int|
            0 <= i < before@.len() && (#[trigger] before@[i]).relative_path@ == path),
        views(r.deleted@).contains(path) <==> (exists|i: int|
            0 <= i < before@.len() && (#[trigger] before@[i]).relative_path@ == path) && !(exists|
            j: int,
        |
            0 <= j < now@.len() && (#[trigger] now@[j]).relative_path@ == path),
{
    let a = views(before@);
    let b = views(now@);
    assert forall|i: int, j: int| 0 <= i < j < a.len() implies (#[trigger] a[i]).relative_path != (
    #[trigger] a[j]).relative_path by {
        assert(before@[i].relative_path@ != before@[j].relative_path@);
    }
    law_modified_means_another_digest(a, b, path);
    law_comparison_finds_what_changed(a, b, path);
    lemma_listed_by(before@, path);
    lemma_listed_by(now@, path);
    if modified_paths(a, b).contains(path) {
        let (i, j) = choose|i: int, j: int|
            0 <= i < a.len() && 0 <= j < b.len() && (#[trigger] a[i]).relative_path == path && (
            #[trigger] b[j]).relative_path == path && a[i].sha256 != b[j].sha256;
        assert(before@[i].relative_path@ == path && now@[j].relative_path@ == path);
    }
    if exists|i: int, j: int|
        0 <= i < before@.len() && 0 <= j < now@.len() && (#[trigger] before@[i]).relative_path@
            == path && (#[trigger] now@[j]).relative_path@ == path && before@[i].sha256@
            != now@[j].sha256@ {
        let (i, j) = choose|i: int, j: int|
            0 <= i < before@.len() && 0 <= j < now@.len() && (#[trigger] before@[i]).relative_path@
                == path && (#[trigger] now@[j]).relative_path@ == path && before@[i].sha256@
                != now@[j].sha256@;
        assert(a[i].relative_path == path && b[j].relative_path == path);
    }
}

proof fn lemma_listed_by(files: Seq<Fingerprint>, path: Seq<char>)
    ensures
        lists(views(files), path) <==> exists|i: int|
            0 <= i < files.len() && (#[trigger] files[i]).relative_path@ == path,
{
    let all = views(files);
    if lists(all, path) {
        let i = choose|i: int| 0 <= i < all.len() && (#[trigger] all[i]).relative_path == path;
        assert(files[i].relative_path@ == path);
    }
    if exists|i: int| 0 <= i < files.len() && (#[trigger] files[i]).relative_path@ == path {
        let i = choose|i: int| 0 <= i < files.len() && (#[trigger] files[i]).relative_path@ == path;
        assert(all[i].relative_path == path);
    }
}

} // verus!
