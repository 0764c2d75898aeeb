//! The local store: collections of documents held in memory, each of them
//! written to disk as a whole when it changes. Numbers of an embedding and
//! scores are kept as the bits of a single-precision number.

use crate::path::HostPath;
use crate::text::{contains_text, same_text, view_opt, views};
use crate::vectordb::ranking::{
    best, law_best_are_the_front, law_best_outscore_the_rest, law_ranked_holds_every_index,
    law_ranked_is_stable_descending, law_ranking_goes_by_the_bits, precedes, rank, ranked,
    score_key,
};
use vstd::prelude::*;

verus! {

/// What is recorded of a chunk beside its embedding.
#[derive(Debug)]
pub struct ChunkMeta {
    pub file_path: HostPath,
    pub relative_path: String,
    pub start_line: u32,
    pub end_line: u32,
    pub language: String,
}

/// A stored document: content, the bits of its embedding, and its origin.
#[derive(Debug)]
pub struct LocalDoc {
    pub id: String,
    pub content: String,
    pub vector: Vec<u32>,
    pub metadata: ChunkMeta,
}

/// A row to insert into a vector store.
#[derive(Debug)]
pub struct InsertRow {
    pub id: String,
    pub content: String,
    pub vector: Vec<u32>,
    pub metadata: ChunkMeta,
}

/// A document that a search found, with the bits of its score.
#[derive(Debug)]
pub struct SearchHit {
    pub id: String,
    pub score: u32,
    pub content: String,
    pub metadata: ChunkMeta,
}

#[derive(Debug, Clone, Copy, PartialEq, Eq, Structural)]
pub struct CollectionStats {
    pub row_count: u64,
}

/// A named set of documents, as it is written to disk.
#[derive(Debug)]
pub struct Collection {
    pub dimension: usize,
    pub docs: Vec<LocalDoc>,
}

#[verifier::ext_equal]
pub struct ChunkMetaView {
    pub file_path: Seq<u8>,
    pub relative_path: Seq<char>,
    pub start_line: u32,
    pub end_line: u32,
    pub language: Seq<char>,
}

#[verifier::ext_equal]
pub struct DocView {
    pub id: Seq<char>,
    pub content: Seq<char>,
    pub vector: Seq<u32>,
    pub metadata: ChunkMetaView,
}

#[verifier::ext_equal]
pub struct HitView {
    pub id: Seq<char>,
    pub score: u32,
    pub content: Seq<char>,
    pub metadata: ChunkMetaView,
}

#[verifier::ext_equal]
pub struct CollectionView {
    pub dimension: usize,
    pub docs: Seq<DocView>,
}

impl View for ChunkMeta {
    type V = ChunkMetaView;

    open spec fn view(&self) -> ChunkMetaView {
        ChunkMetaView {
            file_path: self.file_path@,
            relative_path: self.relative_path@,
            start_line: self.start_line,
            end_line: self.end_line,
            language: self.language@,
        }
    }
}

impl View for LocalDoc {
    type V = DocView;

    open spec fn view(&self) -> DocView {
        DocView {
            id: self.id@,
            content: self.content@,
            vector: self.vector@,
            metadata: self.metadata@,
        }
    }
}

impl View for InsertRow {
    type V = DocView;

    open spec fn view(&self) -> DocView {
        DocView {
            id: self.id@,
            content: self.content@,
            vector: self.vector@,
            metadata: self.metadata@,
        }
    }
}

impl View for SearchHit {
    type V = HitView;

    open spec fn view(&self) -> HitView {
        HitView {
            id: self.id@,
            score: self.score,
            content: self.content@,
            metadata: self.metadata@,
        }
    }
}

impl View for Collection {
    type V = CollectionView;

    open spec fn view(&self) -> CollectionView {
        CollectionView { dimension: self.dimension, docs: views(self.docs@) }
    }
}

impl Clone for ChunkMeta {
    fn clone(&self) -> (r: Self)
        ensures
            r@ == self@,
    {
        ChunkMeta {
            file_path: self.file_path.clone(),
            relative_path: self.relative_path.clone(),
            start_line: self.start_line,
            end_line: self.end_line,
            language: self.language.clone(),
        }
    }
}

/// Metadata that says nothing.
pub open spec fn no_metadata() -> ChunkMetaView {
    ChunkMetaView {
        file_path: Seq::empty(),
        relative_path: Seq::empty(),
        start_line: 0,
        end_line: 0,
        language: Seq::empty(),
    }
}

impl Default for ChunkMeta {
    fn default() -> (r: Self)
        ensures
            r@ == no_metadata(),
    {
        ChunkMeta {
            file_path: HostPath::empty(),
            relative_path: String::new(),
            start_line: 0,
            end_line: 0,
            language: String::new(),
        }
    }
}

impl Default for CollectionStats {
    fn default() -> (r: Self)
        ensures
            r.row_count == 0,
    {
        CollectionStats { row_count: 0 }
    }
}

/// A collection without documents.
pub open spec fn no_docs(dimension: usize) -> CollectionView {
    CollectionView { dimension, docs: Seq::empty() }
}

impl Default for Collection {
    fn default() -> (r: Self)
        ensures
            r@ == no_docs(0),
    {
        let r = Collection { dimension: 0, docs: Vec::new() };
        assert(views(r.docs@) =~= Seq::<DocView>::empty());
        r
    }
}

fn copy_bits(bits: &[u32]) -> (r: Vec<u32>)
    ensures
        r@ == bits@,
{
    let mut out: Vec<u32> = Vec::new();
    let mut i: usize = 0;
    while i < bits.len()
        invariant
            i <= bits@.len(),
            out@ =~= bits@.take(i as int),
        decreases bits@.len() - i,
    {
        out.push(bits[i]);
        i += 1;
    }
    assert(bits@.take(bits@.len() as int) =~= bits@);
    out
}

impl InsertRow {
    /// The document that this row becomes.
    pub fn to_doc(&self) -> (r: LocalDoc)
        ensures
            r@ == self@,
    {
        LocalDoc {
            id: self.id.clone(),
            content: self.content.clone(),
            vector: copy_bits(self.vector.as_slice()),
            metadata: self.metadata.clone(),
        }
    }
}

impl Clone for InsertRow {
    fn clone(&self) -> (r: Self)
        ensures
            r@ == self@,
    {
        InsertRow {
            id: self.id.clone(),
            content: self.content.clone(),
            vector: copy_bits(self.vector.as_slice()),
            metadata: self.metadata.clone(),
        }
    }
}

/// A collection that the store holds in memory, under its name.
#[derive(Debug)]
struct Entry {
    name: String,
    collection: Collection,
}

spec fn place(entries: Seq<Entry>, name: Seq<char>) -> int {
    choose|i: int| 0 <= i < entries.len() && (#[trigger] entries[i]).name@ == name
}

spec fn named(entries: Seq<Entry>, name: Seq<char>) -> bool {
    exists|i: int| 0 <= i < entries.len() && (#[trigger] entries[i]).name@ == name
}

spec fn distinct(entries: Seq<Entry>) -> bool {
    forall|i: int, j: int|
        0 <= i < entries.len() && 0 <= j < entries.len() && (#[trigger] entries[i]).name@ == (
        #[trigger] entries[j]).name@ ==> i == j
}

spec fn contents(entries: Seq<Entry>) -> Map<Seq<char>, CollectionView> {
    Map::new(
        |name: Seq<char>| named(entries, name),
        |name: Seq<char>| entries[place(entries, name)].collection@,
    )
}

proof fn lemma_contents_at(entries: Seq<Entry>, i: int)
    requires
        distinct(entries),
        0 <= i < entries.len(),
    ensures
        contents(entries).contains_key(entries[i].name@),
        contents(entries)[entries[i].name@] == entries[i].collection@,
{
    let name = entries[i].name@;
    assert(named(entries, name));
    let j = place(entries, name);
    assert(entries[j].name@ == name);
}

proof fn lemma_contents_push(entries: Seq<Entry>, entry: Entry)
    requires
        distinct(entries),
        !named(entries, entry.name@),
    ensures
        distinct(entries.push(entry)),
        contents(entries.push(entry)) == contents(entries).insert(entry.name@, entry.collection@),
{
    let more = entries.push(entry);
    assert(forall|i: int| 0 <= i < entries.len() ==> more[i] == entries[i]);
    assert(distinct(more));
    let want = contents(entries).insert(entry.name@, entry.collection@);
    assert forall|name: Seq<char>| named(more, name) == want.contains_key(name) by {
        if named(more, name) {
            let i = place(more, name);
            assert(more[i].name@ == name);
            if i < entries.len() {
                assert(entries[i].name@ == name);
            }
        }
        if named(entries, name) {
            let i = place(entries, name);
            assert(more[i].name@ == name);
        }
        if name == entry.name@ {
            assert(more[entries.len() as int].name@ == name);
        }
    }
    assert forall|name: Seq<char>| named(more, name) implies contents(more)[name] == want[name] by {
        let i = place(more, name);
        assert(more[i].name@ == name);
        lemma_contents_at(more, i);
        if i < entries.len() {
            assert(entries[i].name@ == name);
            lemma_contents_at(entries, i);
        }
    }
    assert(contents(more) =~= want);
}

proof fn lemma_contents_update(entries: Seq<Entry>, i: int, entry: Entry)
    requires
        distinct(entries),
        0 <= i < entries.len(),
        entry.name@ == entries[i].name@,
    ensures
        distinct(entries.update(i, entry)),
        contents(entries.update(i, entry)) == contents(entries).insert(
            entry.name@,
            entry.collection@,
        ),
{
    let more = entries.update(i, entry);
    assert(forall|k: int| 0 <= k < entries.len() ==> more[k].name@ == entries[k].name@);
    assert(distinct(more));
    let want = contents(entries).insert(entry.name@, entry.collection@);
    assert forall|name: Seq<char>| named(more, name) == want.contains_key(name) by {
        if named(more, name) {
            let k = place(more, name);
            assert(entries[k].name@ == name);
        }
        if named(entries, name) {
            let k = place(entries, name);
            assert(more[k].name@ == name);
        }
        if name == entry.name@ {
            assert(more[i].name@ == name);
        }
    }
    assert forall|name: Seq<char>| named(more, name) implies contents(more)[name] == want[name] by {
        let k = place(more, name);
        assert(more[k].name@ == name);
        lemma_contents_at(more, k);
        lemma_contents_at(entries, k);
        assert(entries[k].name@ == name);
    }
    assert(contents(more) =~= want);
}

proof fn lemma_contents_remove(entries: Seq<Entry>, i: int)
    requires
        distinct(entries),
        0 <= i < entries.len(),
    ensures
        distinct(entries.remove(i)),
        contents(entries.remove(i)) == contents(entries).remove(entries[i].name@),
{
    let less = entries.remove(i);
    assert(forall|k: int| 0 <= k < i ==> less[k] == entries[k]);
    assert(forall|k: int| i <= k < less.len() ==> less[k] == entries[k + 1]);
    assert forall|a: int, b: int|
        0 <= a < less.len() && 0 <= b < less.len() && (#[trigger] less[a]).name@ == (
        #[trigger] less[b]).name@ implies a == b by {
        let x = if a < i { a } else { a + 1 };
        let y = if b < i { b } else { b + 1 };
        assert(entries[x].name@ == entries[y].name@);
    }
    let want = contents(entries).remove(entries[i].name@);
    assert forall|name: Seq<char>| named(less, name) == want.contains_key(name) by {
        if named(less, name) {
            let k = place(less, name);
            assert(less[k].name@ == name);
            let x = if k < i { k } else { k + 1 };
            assert(entries[x].name@ == name);
        }
        if named(entries, name) && name != entries[i].name@ {
            let k = place(entries, name);
            assert(entries[k].name@ == name);
            let x = if k < i { k } else { k - 1 };
            assert(less[x].name@ == name);
        }
    }
    assert forall|name: Seq<char>| named(less, name) implies contents(less)[name] == want[name] by {
        let k = place(less, name);
        assert(less[k].name@ == name);
        lemma_contents_at(less, k);
        let x = if k < i { k } else { k + 1 };
        lemma_contents_at(entries, x);
    }
    assert(contents(less) =~= want);
}

/// Collections by name. A collection that is not in memory may lie on disk:
/// where that matters, what was read from there is passed in.
#[derive(Debug)]
pub struct LocalStore {
    entries: Vec<Entry>,
}

impl View for LocalStore {
    type V = Map<Seq<char>, CollectionView>;

    closed spec fn view(&self) -> Map<Seq<char>, CollectionView> {
        contents(self.entries@)
    }
}

/// The collection called `name`: the one in memory, or else the one on disk.
pub open spec fn known(
    memory: Map<Seq<char>, CollectionView>,
    name: Seq<char>,
    stored: Option<CollectionView>,
) -> Option<CollectionView> {
    if memory.contains_key(name) {
        Some(memory[name])
    } else {
        stored
    }
}

/// `collection` with `docs` behind its own.
pub open spec fn extended(collection: CollectionView, docs: Seq<DocView>) -> CollectionView {
    CollectionView { dimension: collection.dimension, docs: collection.docs + docs }
}

/// `collection` without the documents of the given files.
pub open spec fn without_files(collection: CollectionView, paths: Seq<Seq<char>>) -> CollectionView {
    CollectionView {
        dimension: collection.dimension,
        docs: collection.docs.filter(|doc: DocView| !paths.contains(doc.metadata.relative_path)),
    }
}

/// The hit for a document with a score.
pub open spec fn hit_for(doc: DocView, score: u32) -> HitView {
    HitView { id: doc.id, score, content: doc.content, metadata: doc.metadata }
}

/// The documents with the `top_k` best scores, best first, equal scores in
/// stored order.
pub open spec fn top_hits(docs: Seq<DocView>, scores: Seq<u32>, top_k: int) -> Seq<HitView> {
    let order = best(ranked(scores), top_k);
    Seq::new(order.len(), |a: int| hit_for(docs[order[a]], scores[order[a]]))
}

/// `names` and then every other name of `more`, each once.
pub open spec fn merged_names(names: Seq<Seq<char>>, more: Seq<Seq<char>>) -> Seq<Seq<char>>
    decreases more.len(),
{
    if more.len() == 0 {
        names
    } else {
        let before = merged_names(names, more.drop_last());
        if before.contains(more.last()) {
            before
        } else {
            before.push(more.last())
        }
    }
}

/// The documents that parallel columns make, as far as every column goes.
pub open spec fn zipped_docs(
    ids: Seq<Seq<char>>,
    contents: Seq<Seq<char>>,
    vectors: Seq<Seq<u32>>,
    metadatas: Seq<ChunkMetaView>,
) -> Seq<DocView> {
    Seq::new(
        shortest(ids.len(), contents.len(), vectors.len(), metadatas.len()),
        |i: int|
            DocView {
                id: ids[i],
                content: contents[i],
                vector: vectors[i],
                metadata: metadatas[i],
            },
    )
}

pub open spec fn shortest(a: nat, b: nat, c: nat, d: nat) -> nat {
    let x = if a < b {
        a
    } else {
        b
    };
    let y = if c < d {
        c
    } else {
        d
    };
    if x < y {
        x
    } else {
        y
    }
}

impl LocalStore {
    /// No two collections in memory have the same name.
    pub closed spec fn wf(&self) -> bool {
        distinct(self.entries@)
    }

    /// The names of the collections in memory, in the order in which they got
    /// there.
    pub closed spec fn names(&self) -> Seq<Seq<char>> {
        Seq::new(self.entries@.len(), |i: int| self.entries@[i].name@)
    }

    /// The names are those of the collections in memory, each once.
    pub proof fn law_names(&self)
        requires
            self.wf(),
        ensures
            self.names().no_duplicates(),
            forall|name: Seq<char>| self.names().contains(name) <==> self@.contains_key(name),
    {
        assert forall|name: Seq<char>| self.names().contains(name) == self@.contains_key(name) by {
            if named(self.entries@, name) {
                let i = place(self.entries@, name);
                assert(self.names()[i] == name);
            }
            if self.names().contains(name) {
                let i = self.names().index_of(name);
                assert(self.entries@[i].name@ == name);
            }
        }
        assert forall|i: int, j: int|
            0 <= i < self.names().len() && 0 <= j < self.names().len() && i
                != j implies self.names()[i] != self.names()[j] by {
            assert(self.entries@[i].name@ != self.entries@[j].name@);
        }
    }

    /// A store with nothing in memory.
    pub fn new() -> (r: Self)
        ensures
            r.wf(),
            r@ == Map::<Seq<char>, CollectionView>::empty(),
    {
        let r = LocalStore { entries: Vec::new() };
        assert(contents(r.entries@) =~= Map::<Seq<char>, CollectionView>::empty());
        r
    }

    fn find(&self, name: &str) -> (r: Option<usize>)
        requires
            self.wf(),
        ensures
            match r {
                Some(i) => i < self.entries@.len() && self.entries@[i as int].name@ == name@
                    && self@.contains_key(name@) && self@[name@]
                    == self.entries@[i as int].collection@,
                None => !self@.contains_key(name@) && !named(self.entries@, name@),
            },
    {
        let mut i: usize = 0;
        while i < self.entries.len()
            invariant
                self.wf(),
                i <= self.entries@.len(),
                forall|k: int| 0 <= k < i ==> (#[trigger] self.entries@[k]).name@ != name@,
            decreases self.entries@.len() - i,
        {
            if same_text(self.entries[i].name.as_str(), name) {
                proof {
                    lemma_contents_at(self.entries@, i as int);
                }
                return Some(i);
            }
            i += 1;
        }
        None
    }

    fn put(&mut self, name: &str, collection: Collection)
        requires
            old(self).wf(),
        ensures
            final(self).wf(),
            final(self)@ == old(self)@.insert(name@, collection@),
    {
        let entry = Entry { name: name.to_owned(), collection };
        match self.find(name) {
            Some(i) => {
                proof {
                    lemma_contents_update(self.entries@, i as int, entry);
                }
                self.entries.set(i, entry);
            },
            None => {
                proof {
                    lemma_contents_push(self.entries@, entry);
                }
                self.entries.push(entry);
            },
        }
    }

    fn take(&mut self, name: &str) -> (r: Option<Collection>)
        requires
            old(self).wf(),
        ensures
            final(self).wf(),
            final(self)@ == old(self)@.remove(name@),
            view_opt(r) == (if old(self)@.contains_key(name@) {
                Some(old(self)@[name@])
            } else {
                None
            }),
    {
        match self.find(name) {
            Some(i) => {
                proof {
                    lemma_contents_remove(self.entries@, i as int);
                }
                let entry = self.entries.remove(i);
                Some(entry.collection)
            },
            None => {
                assert(self@ =~= self@.remove(name@));
                None
            },
        }
    }

    /// Makes an empty collection called `name`, in place of any other. It is to be
    /// written to disk.
    pub fn create_collection(&mut self, name: &str, dimension: usize)
        requires
            old(self).wf(),
        ensures
            final(self).wf(),
            final(self)@ == old(self)@.insert(name@, no_docs(dimension)),
    {
        let collection = Collection { dimension, docs: Vec::new() };
        assert(views(collection.docs@) =~= Seq::<DocView>::empty());
        self.put(name, collection);
    }

    /// Whether a collection called `name` is in memory.
    pub fn is_cached(&self, name: &str) -> (r: bool)
        requires
            self.wf(),
        ensures
            r == self@.contains_key(name@),
    {
        self.find(name).is_some()
    }

    /// Whether a collection called `name` exists, when `on_disk` tells whether its
    /// file does.
    pub fn has_collection(&self, name: &str, on_disk: bool) -> (r: bool)
        requires
            self.wf(),
        ensures
            r == (self@.contains_key(name@) || on_disk),
    {
        self.is_cached(name) || on_disk
    }

    /// The collection called `name` in memory.
    pub fn collection(&self, name: &str) -> (r: Option<&Collection>)
        requires
            self.wf(),
        ensures
            view_opt(r) == (if self@.contains_key(name@) {
                Some(self@[name@])
            } else {
                None
            }),
    {
        match self.find(name) {
            Some(i) => Some(&self.entries[i].collection),
            None => None,
        }
    }

    /// Forgets the collection called `name`. Its file is to be removed.
    pub fn drop_collection(&mut self, name: &str)
        requires
            old(self).wf(),
        ensures
            final(self).wf(),
            final(self)@ == old(self)@.remove(name@),
    {
        self.take(name);
    }

    /// Puts the collection that was read from disk into memory, unless one of that
    /// name is there; tells whether there is one now.
    pub fn load(&mut self, name: &str, stored: Option<Collection>) -> (r: bool)
        requires
            old(self).wf(),
        ensures
            final(self).wf(),
            r == (known(old(self)@, name@, view_opt(stored)) is Some),
            final(self)@ == (match known(old(self)@, name@, view_opt(stored)) {
                Some(collection) => old(self)@.insert(name@, collection),
                None => old(self)@,
            }),
    {
        if self.is_cached(name) {
            assert(self@ =~= self@.insert(name@, self@[name@]));
            return true;
        }
        match stored {
            Some(collection) => {
                self.put(name, collection);
                true
            },
            None => false,
        }
    }

    /// Appends documents to the collection called `name`; a collection that is
    /// nowhere starts empty with dimension 0. Tells whether the collection is to be
    /// written to disk.
    pub fn insert_docs(
        &mut self,
        collection_name: &str,
        docs: Vec<LocalDoc>,
        stored: Option<Collection>,
    ) -> (r: bool)
        requires
            old(self).wf(),
        ensures
            final(self).wf(),
            r == (docs@.len() > 0),
            docs@.len() == 0 ==> final(self)@ == old(self)@,
            docs@.len() > 0 ==> final(self)@ == old(self)@.insert(
                collection_name@,
                extended(
                    known(old(self)@, collection_name@, view_opt(stored)).unwrap_or(no_docs(0)),
                    views(docs@),
                ),
            ),
    {
        if docs.len() == 0 {
            return false;
        }
        let mut docs = docs;
        let taken = self.take(collection_name);
        let mut collection = match taken {
            Some(collection) => collection,
            None => match stored {
                Some(collection) => collection,
                None => Collection::default(),
            },
        };
        proof {
            crate::text::lemma_views_add(collection.docs@, docs@);
        }
        collection.docs.append(&mut docs);
        let ghost after = collection@;
        self.put(collection_name, collection);
        assert(self@ =~= old(self)@.insert(collection_name@, after));
        true
    }

    /// Appends the documents that parallel columns make, as far as every column
    /// goes. Tells whether the collection is to be written to disk.
    pub fn insert_rows(
        &mut self,
        collection_name: &str,
        ids: &[String],
        contents: &[String],
        vectors: &[Vec<u32>],
        metadatas: &[ChunkMeta],
        stored: Option<Collection>,
    ) -> (r: bool)
        requires
            old(self).wf(),
        ensures
            final(self).wf(),
            ({
                let docs = zipped_docs(
                    views(ids@),
                    views(contents@),
                    views(vectors@),
                    views(metadatas@),
                );
                &&& r == (docs.len() > 0)
                &&& docs.len() == 0 ==> final(self)@ == old(self)@
                &&& docs.len() > 0 ==> final(self)@ == old(self)@.insert(
                    collection_name@,
                    extended(
                        known(old(self)@, collection_name@, view_opt(stored)).unwrap_or(no_docs(0)),
                        docs,
                    ),
                )
            }),
    {
        let mut docs: Vec<LocalDoc> = Vec::new();
        let ghost want = zipped_docs(
            views(ids@),
            views(contents@),
            views(vectors@),
            views(metadatas@),
        );
        let mut i: usize = 0;
        while i < ids.len() && i < contents.len() && i < vectors.len() && i < metadatas.len()
            invariant
                want == zipped_docs(
                    views(ids@),
                    views(contents@),
                    views(vectors@),
                    views(metadatas@),
                ),
                i <= want.len(),
                docs@.len() == i,
                views(docs@) =~= want.take(i as int),
            decreases ids@.len() - i,
        {
            let doc = LocalDoc {
                id: ids[i].clone(),
                content: contents[i].clone(),
                vector: copy_bits(vectors[i].as_slice()),
                metadata: metadatas[i].clone(),
            };
            assert(doc@ == want[i as int]);
            docs.push(doc);
            i += 1;
        }
        assert(views(docs@) =~= want);
        self.insert_docs(collection_name, docs, stored)
    }

    /// The best `top_k` documents of the collection called `name` in memory, given
    /// the score of each of its documents; none when it is not in memory.
    pub fn search(&self, collection_name: &str, scores: &[u32], top_k: usize) -> (r: Vec<SearchHit>)
        requires
            self.wf(),
            self@.contains_key(collection_name@) ==> scores@.len()
                == self@[collection_name@].docs.len(),
        ensures
            views(r@) == (if self@.contains_key(collection_name@) {
                top_hits(self@[collection_name@].docs, scores@, top_k as int)
            } else {
                Seq::empty()
            }),
    {
        let mut hits: Vec<SearchHit> = Vec::new();
        let at = match self.find(collection_name) {
            Some(i) => i,
            None => {
                assert(views(hits@) =~= Seq::<HitView>::empty());
                return hits;
            },
        };
        let docs = &self.entries[at].collection.docs;
        let order = rank(scores, top_k);
        let ghost want = top_hits(self@[collection_name@].docs, scores@, top_k as int);
        proof {
            crate::vectordb::ranking::law_ranked_is_stable_descending(scores@);
        }
        let mut a: usize = 0;
        while a < order.len()
            invariant
                a <= order@.len(),
                docs@.len() == scores@.len(),
                want == top_hits(views(docs@), scores@, top_k as int),
                order@.len() == best(ranked(scores@), top_k as int).len(),
                forall|x: int|
                    0 <= x < order@.len() ==> #[trigger] order@[x] == best(
                        ranked(scores@),
                        top_k as int,
                    )[x] && order@[x] < scores@.len(),
                hits@.len() == a,
                views(hits@) =~= want.take(a as int),
            decreases order@.len() - a,
        {
            let i = order[a];
            let doc = &docs[i];
            let hit = SearchHit {
                id: doc.id.clone(),
                score: scores[i],
                content: doc.content.clone(),
                metadata: doc.metadata.clone(),
            };
            assert(hit@ == want[a as int]);
            hits.push(hit);
            a += 1;
        }
        assert(views(hits@) =~= want);
        hits
    }

    /// The names of all collections: those in memory, and those on disk.
    pub fn list_collections(&self, on_disk: &[String]) -> (r: Vec<String>)
        ensures
            views(r@) == merged_names(self.names(), views(on_disk@)),
    {
        let mut names: Vec<String> = Vec::new();
        let mut i: usize = 0;
        while i < self.entries.len()
            invariant
                i <= self.entries@.len(),
                names@.len() == i,
                views(names@) =~= self.names().take(i as int),
            decreases self.entries@.len() - i,
        {
            names.push(self.entries[i].name.clone());
            i += 1;
        }
        assert(views(names@) =~= self.names());
        let mut j: usize = 0;
        assert(views(on_disk@).take(0) =~= Seq::<Seq<char>>::empty());
        while j < on_disk.len()
            invariant
                j <= on_disk@.len(),
                views(names@) == merged_names(self.names(), views(on_disk@).take(j as int)),
            decreases on_disk@.len() - j,
        {
            proof {
                let seen = views(on_disk@).take(j + 1);
                assert(seen.drop_last() =~= views(on_disk@).take(j as int));
                assert(seen.last() == on_disk@[j as int]@);
            }
            if !contains_text(names.as_slice(), on_disk[j].as_str()) {
                let name = on_disk[j].clone();
                proof {
                    crate::text::lemma_views_push(names@, name);
                }
                names.push(name);
            }
            j += 1;
        }
        assert(views(on_disk@).take(on_disk@.len() as int) =~= views(on_disk@));
        names
    }

    /// How many documents the collection called `name` holds.
    pub fn collection_size(&self, name: &str, stored: Option<&Collection>) -> (r: usize)
        requires
            self.wf(),
        ensures
            r == (match known(self@, name@, view_opt(stored)) {
                Some(collection) => collection.docs.len(),
                None => 0,
            }),
    {
        match self.collection(name) {
            Some(collection) => collection.docs.len(),
            None => match stored {
                Some(collection) => collection.docs.len(),
                None => 0,
            },
        }
    }

    /// Deletes the documents of the given files from the collection called `name`.
    /// Tells whether the collection is to be written to disk.
    pub fn delete_by_filter(
        &mut self,
        collection_name: &str,
        relative_paths: &[String],
        stored: Option<Collection>,
    ) -> (r: bool)
        requires
            old(self).wf(),
        ensures
            final(self).wf(),
            r == (known(old(self)@, collection_name@, view_opt(stored)) is Some),
            final(self)@ == (match known(old(self)@, collection_name@, view_opt(stored)) {
                Some(collection) => old(self)@.insert(
                    collection_name@,
                    without_files(collection, views(relative_paths@)),
                ),
                None => old(self)@,
            }),
    {
        let taken = self.take(collection_name);
        let collection = match taken {
            Some(collection) => collection,
            None => match stored {
                Some(collection) => collection,
                None => {
                    assert(self@ =~= old(self)@);
                    return false;
                },
            },
        };
        let ghost before = collection@;
        let ghost paths = views(relative_paths@);
        let ghost keep = |doc: DocView| !paths.contains(doc.metadata.relative_path);
        let dimension = collection.dimension;
        let mut rest = collection.docs;
        // The documents come off the end, so the kept ones are gathered in reverse.
        let mut kept: Vec<LocalDoc> = Vec::new();
        assert(views(kept@).reverse() =~= Seq::<DocView>::empty());
        assert(before.docs.filter(keep) + Seq::<DocView>::empty() =~= before.docs.filter(keep));
        while rest.len() > 0
            invariant
                paths == views(relative_paths@),
                keep == |doc: DocView| !paths.contains(doc.metadata.relative_path),
                views(rest@).filter(keep) + views(kept@).reverse() == before.docs.filter(keep),
            decreases rest@.len(),
        {
            let ghost whole = views(rest@);
            let ghost gathered = views(kept@);
            match rest.pop() {
                Some(doc) => {
                    proof {
                        assert(whole.drop_last() =~= views(rest@));
                        assert(whole.last() == doc@);
                        reveal(Seq::filter);
                    }
                    if !contains_text(relative_paths, doc.metadata.relative_path.as_str()) {
                        let ghost shown = doc@;
                        proof {
                            crate::text::lemma_views_push(kept@, doc);
                        }
                        kept.push(doc);
                        assert(views(kept@).reverse() =~= seq![shown] + gathered.reverse());
                        assert(whole.filter(keep) =~= views(rest@).filter(keep).push(shown));
                        assert(views(rest@).filter(keep) + views(kept@).reverse()
                            =~= whole.filter(keep) + gathered.reverse());
                    }
                },
                None => {},
            }
        }
        let mut docs: Vec<LocalDoc> = Vec::new();
        let ghost reversed = views(kept@).reverse();
        proof {
            assert(views(rest@) =~= Seq::<DocView>::empty());
            reveal(Seq::filter);
            assert(views(rest@).filter(keep) =~= Seq::<DocView>::empty());
            assert(reversed =~= before.docs.filter(keep));
            assert(views(docs@) + reversed =~= reversed);
        }
        while kept.len() > 0
            invariant
                views(docs@) + views(kept@).reverse() == reversed,
            decreases kept@.len(),
        {
            let ghost left = views(kept@);
            let ghost done = views(docs@);
            match kept.pop() {
                Some(doc) => {
                    let ghost shown = doc@;
                    proof {
                        assert(left.drop_last() =~= views(kept@));
                        assert(left.last() == shown);
                        crate::text::lemma_views_push(docs@, doc);
                    }
                    docs.push(doc);
                    assert(left.reverse() =~= seq![shown] + views(kept@).reverse());
                    assert(views(docs@) + views(kept@).reverse() =~= done + left.reverse());
                },
                None => {},
            }
        }
        assert(views(docs@) =~= reversed) by {
            assert(views(kept@).reverse() =~= Seq::<DocView>::empty());
        }
        let after = Collection { dimension, docs };
        let ghost shown = after@;
        self.put(collection_name, after);
        assert(self@ =~= old(self)@.insert(collection_name@, shown));
        assert(shown =~= without_files(before, paths));
        true
    }
}

impl Default for LocalStore {
    fn default() -> (r: Self)
        ensures
            r.wf(),
            r@ == Map::<Seq<char>, CollectionView>::empty(),
    {
        LocalStore::new()
    }
}

/// A search gives at most `top_k` hits, one for each of the best documents: every
/// hit is a stored document with its score, in descending order of scores, and no
/// document left out has a better score than one given.
pub proof fn law_search_gives_the_best(docs: Seq<DocView>, scores: Seq<u32>, top_k: int)
    requires
        docs.len() == scores.len(),
        0 <= top_k,
    ensures
        top_hits(docs, scores, top_k).len() == if top_k < docs.len() {
            top_k
        } else {
            docs.len() as int
        },
        forall|a: int|
            0 <= a < top_hits(docs, scores, top_k).len() ==> {
                let i = best(ranked(scores), top_k)[a];
                0 <= i < docs.len() && #[trigger] top_hits(docs, scores, top_k)[a] == hit_for(
                    docs[i],
                    scores[i],
                )
            },
        forall|a: int, b: int|
            0 <= a < b < top_hits(docs, scores, top_k).len() ==> score_key(
                (#[trigger] top_hits(docs, scores, top_k)[a]).score,
            ) >= score_key((#[trigger] top_hits(docs, scores, top_k)[b]).score),
        forall|a: int, b: int|
            0 <= a < top_hits(docs, scores, top_k).len() <= b < ranked(scores).len() ==> score_key(
                (#[trigger] top_hits(docs, scores, top_k)[a]).score,
            ) >= score_key(scores[#[trigger] ranked(scores)[b]]),
{
    law_ranked_is_stable_descending(scores);
    let order = best(ranked(scores), top_k);
    assert forall|a: int| 0 <= a < order.len() implies 0 <= #[trigger] order[a] < docs.len() by {
        assert(order[a] == ranked(scores)[a]);
    }
    assert forall|a: int, b: int| 0 <= a < b < order.len() implies precedes(
        scores,
        #[trigger] order[a],
        #[trigger] order[b],
    ) by {
        assert(order[a] == ranked(scores)[a]);
        assert(order[b] == ranked(scores)[b]);
    }
    assert forall|a: int, b: int|
        0 <= a < top_hits(docs, scores, top_k).len() <= b < ranked(scores).len() implies score_key(
        (#[trigger] top_hits(docs, scores, top_k)[a]).score,
    ) >= score_key(scores[#[trigger] ranked(scores)[b]]) by {
        law_best_outscore_the_rest(scores, top_k, a, b);
    }
}

/// A search that asks for enough hits finds every stored document.
pub proof fn law_every_document_can_be_found(
    docs: Seq<DocView>,
    scores: Seq<u32>,
    top_k: int,
    i: int,
)
    requires
        docs.len() == scores.len() <= top_k,
        0 <= i < docs.len(),
    ensures
        top_hits(docs, scores, top_k).contains(hit_for(docs[i], scores[i])),
{
    law_ranked_is_stable_descending(scores);
    law_ranked_holds_every_index(scores, i);
    let order = ranked(scores);
    let a = choose|a: int| 0 <= a < order.len() && order[a] == i;
    assert(top_hits(docs, scores, top_k)[a] == hit_for(docs[i], scores[i]));
}

/// Deleting files leaves none of their documents, and all others.
pub proof fn law_deleted_files_are_gone(
    collection: CollectionView,
    paths: Seq<Seq<char>>,
    doc: DocView,
)
    ensures
        without_files(collection, paths).docs.contains(doc) <==> collection.docs.contains(doc)
            && !paths.contains(doc.metadata.relative_path),
{
    let keep = |doc: DocView| !paths.contains(doc.metadata.relative_path);
    let kept = collection.docs.filter(keep);
    if kept.contains(doc) {
        let i = choose|i: int| 0 <= i < kept.len() && kept[i] == doc;
        collection.docs.lemma_filter_pred(keep, i);
        collection.docs.lemma_filter_contains_rev(keep, doc);
    }
    if collection.docs.contains(doc) && keep(doc) {
        let i = choose|i: int| 0 <= i < collection.docs.len() && collection.docs[i] == doc;
        collection.docs.lemma_filter_contains(keep, i);
    }
}

/// Deleting the files of documents that were just inserted undoes the insertion,
/// if the collection held nothing of those files.
pub proof fn law_deletion_undoes_insertion(
    collection: CollectionView,
    docs: Seq<DocView>,
    paths: Seq<Seq<char>>,
)
    requires
        forall|i: int|
            0 <= i < collection.docs.len() ==> !paths.contains(
                (#[trigger] collection.docs[i]).metadata.relative_path,
            ),
        forall|i: int|
            0 <= i < docs.len() ==> paths.contains((#[trigger] docs[i]).metadata.relative_path),
    ensures
        without_files(extended(collection, docs), paths) == collection,
{
    let keep = |doc: DocView| !paths.contains(doc.metadata.relative_path);
    lemma_filter_all(collection.docs, keep);
    lemma_filter_none(docs, keep);
    Seq::filter_distributes_over_add(collection.docs, docs, keep);
    assert(collection.docs + Seq::<DocView>::empty() =~= collection.docs);
}

proof fn lemma_filter_all(docs: Seq<DocView>, keep: spec_fn(DocView) -> bool)
    requires
        forall|i: int| 0 <= i < docs.len() ==> keep(#[trigger] docs[i]),
    ensures
        docs.filter(keep) == docs,
    decreases docs.len(),
{
    reveal(Seq::filter);
    if docs.len() > 0 {
        lemma_filter_all(docs.drop_last(), keep);
        assert(keep(docs[docs.len() - 1]));
        assert(docs.drop_last().push(docs.last()) =~= docs);
    }
}

proof fn lemma_filter_none(docs: Seq<DocView>, keep: spec_fn(DocView) -> bool)
    requires
        forall|i: int| 0 <= i < docs.len() ==> !keep(#[trigger] docs[i]),
    ensures
        docs.filter(keep) == Seq::<DocView>::empty(),
    decreases docs.len(),
{
    reveal(Seq::filter);
    if docs.len() > 0 {
        lemma_filter_none(docs.drop_last(), keep);
        assert(!keep(docs[docs.len() - 1]));
    }
}

/// Listed names are those in memory and those on disk, each once.
pub proof fn law_listed_names(names: Seq<Seq<char>>, more: Seq<Seq<char>>)
    requires
        names.no_duplicates(),
    ensures
        merged_names(names, more).no_duplicates(),
        forall|name: Seq<char>|
            merged_names(names, more).contains(name) <==> names.contains(name) || more.contains(
                name,
            ),
    decreases more.len(),
{
    if more.len() > 0 {
        let earlier = more.drop_last();
        let last = more.last();
        let before = merged_names(names, earlier);
        law_listed_names(names, earlier);
        assert(more =~= earlier.push(last));
        assert forall|name: Seq<char>| merged_names(names, more).contains(name) == (names.contains(
            name,
        ) || more.contains(name)) by {
            lemma_push_contains(earlier, last, name);
            lemma_push_contains(before, last, name);
        }
    }
}

proof fn lemma_push_contains(names: Seq<Seq<char>>, last: Seq<char>, name: Seq<char>)
    ensures
        names.push(last).contains(name) == (names.contains(name) || last == name),
{
    if names.contains(name) {
        let i = choose|i: int| 0 <= i < names.len() && names[i] == name;
        assert(names.push(last)[i] == name);
    }
    assert(names.push(last)[names.len() as int] == last);
}

/// A store that was given nothing else reads back what another one wrote: what is
/// known of a collection does not depend on whether it is in memory or was read
/// from its file.
pub proof fn law_memory_and_disk_agree(
    memory: Map<Seq<char>, CollectionView>,
    name: Seq<char>,
    collection: CollectionView,
)
    requires
        memory.contains_key(name),
        memory[name] == collection,
    ensures
        known(memory, name, None) == known(
            Map::<Seq<char>, CollectionView>::empty(),
            name,
            Some(collection),
        ),
{
}

/// Of two hits of a search the first has a score that is not below the other's, as
/// the bits of the two tell.
pub proof fn law_hits_go_by_the_bits(
    docs: Seq<DocView>,
    scores: Seq<u32>,
    top_k: int,
    a: int,
    b: int,
)
    requires
        docs.len() == scores.len(),
        0 <= top_k,
        0 <= a < b < top_hits(docs, scores, top_k).len(),
    ensures
        ({
            let x = top_hits(docs, scores, top_k)[a].score;
            let y = top_hits(docs, scores, top_k)[b].score;
            &&& x < 0x8000_0000 && y < 0x8000_0000 ==> x >= y
            &&& x >= 0x8000_0000 && y >= 0x8000_0000 ==> x <= y
            &&& x > 0x8000_0000 ==> y > 0x8000_0000
            &&& x == 0x8000_0000 && y < 0x8000_0000 ==> y == 0
        }),
{
    law_search_gives_the_best(docs, scores, top_k);
    law_ranking_goes_by_the_bits(scores, a, b);
    law_best_are_the_front(scores, top_k);
}

/// Hits with equal scores keep the order in which their documents are stored, and no
/// document is hit twice.
pub proof fn law_equal_hits_keep_their_order(
    docs: Seq<DocView>,
    scores: Seq<u32>,
    top_k: int,
    a: int,
    b: int,
)
    requires
        docs.len() == scores.len(),
        0 <= top_k,
        0 <= a < b < top_hits(docs, scores, top_k).len(),
    ensures
        exists|i: int, j: int|
            0 <= i < docs.len() && 0 <= j < docs.len() && i != j && #[trigger] hit_for(
                docs[i],
                scores[i],
            ) == top_hits(docs, scores, top_k)[a] && #[trigger] hit_for(docs[j], scores[j])
                == top_hits(docs, scores, top_k)[b] && (scores[i] == scores[j] ==> i < j),
{
    law_search_gives_the_best(docs, scores, top_k);
    law_ranking_goes_by_the_bits(scores, a, b);
    law_best_are_the_front(scores, top_k);
    law_ranked_is_stable_descending(scores);
    let i = ranked(scores)[a];
    let j = ranked(scores)[b];
    assert(hit_for(docs[i], scores[i]) == top_hits(docs, scores, top_k)[a]);
    assert(hit_for(docs[j], scores[j]) == top_hits(docs, scores, top_k)[b]);
}

/// A hit shows the document that was found, and its score.
pub proof fn law_hit_shows_its_document(doc: DocView, score: u32)
    ensures
        hit_for(doc, score).id == doc.id,
        hit_for(doc, score).content == doc.content,
        hit_for(doc, score).metadata == doc.metadata,
        hit_for(doc, score).score == score,
{
}

/// Inserting keeps the documents that are there, in their order, and puts the new ones
/// behind them, in theirs.
pub proof fn law_inserting_appends(collection: CollectionView, docs: Seq<DocView>)
    ensures
        extended(collection, docs).dimension == collection.dimension,
        extended(collection, docs).docs.len() == collection.docs.len() + docs.len(),
        forall|i: int|
            0 <= i < collection.docs.len() ==> #[trigger] extended(collection, docs).docs[i]
                == collection.docs[i],
        forall|i: int|
            0 <= i < docs.len() ==> extended(collection, docs).docs[collection.docs.len() + i]
                == #[trigger] docs[i],
{
}

/// Inserting twice is inserting both at once, and inserting nothing changes nothing.
pub proof fn law_inserting_twice(
    collection: CollectionView,
    first: Seq<DocView>,
    second: Seq<DocView>,
)
    ensures
        extended(extended(collection, first), second) == extended(collection, first + second),
        extended(collection, Seq::empty()) == collection,
{
    assert(extended(extended(collection, first), second).docs =~= extended(
        collection,
        first + second,
    ).docs);
    assert(extended(collection, Seq::empty()).docs =~= collection.docs);
}

/// What deleting leaves is in its order, and as often as it was there: deleting from
/// some documents and then others is deleting from the ones and from the others.
pub proof fn law_deletion_keeps_the_order(
    collection: CollectionView,
    docs: Seq<DocView>,
    doc: DocView,
    paths: Seq<Seq<char>>,
)
    ensures
        without_files(collection, paths).dimension == collection.dimension,
        without_files(extended(collection, docs), paths).docs == without_files(
            collection,
            paths,
        ).docs + without_files(CollectionView { dimension: 0, docs }, paths).docs,
        paths.contains(doc.metadata.relative_path) ==> without_files(
            CollectionView { dimension: 0, docs: seq![doc] },
            paths,
        ).docs.len() == 0,
        !paths.contains(doc.metadata.relative_path) ==> without_files(
            CollectionView { dimension: 0, docs: seq![doc] },
            paths,
        ).docs == seq![doc],
{
    let keep = |doc: DocView| !paths.contains(doc.metadata.relative_path);
    Seq::filter_distributes_over_add(collection.docs, docs, keep);
    let one = seq![doc];
    if keep(doc) {
        lemma_filter_all(one, keep);
    } else {
        lemma_filter_none(one, keep);
    }
}

/// Parallel columns make a document of each place that all of them have, with what
/// each holds there.
pub proof fn law_columns_make_documents(
    ids: Seq<Seq<char>>,
    contents: Seq<Seq<char>>,
    vectors: Seq<Seq<u32>>,
    metadatas: Seq<ChunkMetaView>,
    i: int,
)
    requires
        0 <= i,
    ensures
        ({
            let docs = zipped_docs(ids, contents, vectors, metadatas);
            &&& i < docs.len() <==> i < ids.len() && i < contents.len() && i < vectors.len() && i
                < metadatas.len()
            &&& i < docs.len() ==> docs[i].id == ids[i] && docs[i].content == contents[i]
                && docs[i].vector == vectors[i] && docs[i].metadata == metadatas[i]
        }),
{
}

/// What is in memory goes before what is on disk, and only what is neither is not
/// known.
pub proof fn law_memory_goes_before_disk(
    memory: Map<Seq<char>, CollectionView>,
    name: Seq<char>,
    collection: CollectionView,
    stored: Option<CollectionView>,
)
    ensures
        known(memory.insert(name, collection), name, stored) == Some(collection),
        known(memory.remove(name), name, stored) == stored,
        known(memory, name, stored) is None <==> !memory.contains_key(name) && stored is None,
{
}

/// Listed names begin with those in memory, in their order; each other follows where
/// it first comes up.
pub proof fn law_listed_names_keep_their_order(
    names: Seq<Seq<char>>,
    more: Seq<Seq<char>>,
    name: Seq<char>,
)
    ensures
        names.is_prefix_of(merged_names(names, more)),
        merged_names(names, Seq::empty()) == names,
        merged_names(names, more).contains(name) ==> merged_names(names, more.push(name))
            == merged_names(names, more),
        !merged_names(names, more).contains(name) ==> merged_names(names, more.push(name))
            == merged_names(names, more).push(name),
    decreases more.len(),
{
    assert(more.push(name).drop_last() =~= more);
    assert(more.push(name).last() == name);
    if more.len() > 0 {
        law_listed_names_keep_their_order(names, more.drop_last(), name);
    }
}

/// Metadata that says nothing has no text and no lines, and a new collection no
/// documents.
pub proof fn law_nothing_is_nothing(dimension: usize)
    ensures
        no_metadata().file_path.len() == 0,
        no_metadata().relative_path.len() == 0,
        no_metadata().language.len() == 0,
        no_metadata().start_line == 0,
        no_metadata().end_line == 0,
        no_docs(dimension).dimension == dimension,
        no_docs(dimension).docs.len() == 0,
{
}

/// What searching gives of a collection in memory: as many hits as are wanted and there,
/// none below the next as the bits of their scores tell, and nothing of a collection that
/// is not in memory.
pub proof fn law_search_goes_by_the_bits(
    store: &LocalStore,
    name: &str,
    scores: &[u32],
    top_k: usize,
    r: Vec<SearchHit>,
    a: int,
    b: int,
)
    requires
        call_ensures(LocalStore::search, (store, name, scores, top_k), r),
        store@.contains_key(name@) ==> scores@.len() == store@[name@].docs.len(),
        0 <= a < b < r@.len(),
    ensures
        store@.contains_key(name@),
        r@.len() == vstd::math::min(top_k as int, store@[name@].docs.len() as int),
        ({
            let x = r@[a].score;
            let y = r@[b].score;
            &&& x < 0x8000_0000 && y < 0x8000_0000 ==> x >= y
            &&& x >= 0x8000_0000 && y >= 0x8000_0000 ==> x <= y
            &&& x > 0x8000_0000 ==> y > 0x8000_0000
            &&& x == 0x8000_0000 && y < 0x8000_0000 ==> y == 0
        }),
{
    let shown = views(r@);
    assert(shown.len() == r@.len());
    assert(shown[a] == r@[a]@ && shown[b] == r@[b]@);
    if store@.contains_key(name@) {
        let docs = store@[name@].docs;
        law_search_gives_the_best(docs, scores@, top_k as int);
        law_hits_go_by_the_bits(docs, scores@, top_k as int, a, b);
    }
}

/// The size of a collection is that of the one in memory, else of the one on disk, else
/// zero; and it is there where it is in memory or on disk.
pub proof fn law_size_is_that_of_the_known_collection(
    store: &LocalStore,
    name: &str,
    stored: Option<&Collection>,
    on_disk: bool,
    size: usize,
    has: bool,
)
    requires
        call_ensures(LocalStore::collection_size, (store, name, stored), size),
        call_ensures(LocalStore::has_collection, (store, name, on_disk), has),
    ensures
        store@.contains_key(name@) ==> size == store@[name@].docs.len(),
        !store@.contains_key(name@) && stored is Some ==> size == stored->0.docs@.len(),
        !store@.contains_key(name@) && stored is None ==> size == 0,
        has <==> store@.contains_key(name@) || on_disk,
{
}

} // verus!
