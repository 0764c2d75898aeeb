//! The choice between the local store and a Milvus server. A method here does
//! the part of an operation that happens in memory, and says what is left to do
//! on disk or at the server.

use crate::config::Config;
use crate::text::{chars_of, view_opt, views};
use crate::vectordb::local::{
    extended, known, no_docs, no_metadata, without_files, ChunkMeta, Collection, CollectionStats,
    CollectionView, DocView, HitView, InsertRow, LocalDoc, LocalStore, SearchHit,
};
use crate::vectordb::naming::{build_relative_path_milvus_filter, relative_path_filter};
use vstd::prelude::*;
use vstd::string::StringExecFns;

verus! {

/// The address of a Milvus server, without trailing slashes, and the token that
/// it wants.
#[derive(Debug)]
pub struct MilvusClient {
    base_url: String,
    token: Option<String>,
}

/// `url` without trailing slashes.
pub open spec fn without_trailing_slashes(url: Seq<char>) -> Seq<char>
    decreases url.len(),
{
    if url.len() > 0 && url.last() == '/' {
        without_trailing_slashes(url.drop_last())
    } else {
        url
    }
}

impl MilvusClient {
    pub closed spec fn url(&self) -> Seq<char> {
        self.base_url@
    }

    pub closed spec fn secret(&self) -> Option<Seq<char>> {
        view_opt(self.token)
    }

    pub fn new(url: &str, token: Option<String>) -> (r: Self)
        ensures
            r.url() == without_trailing_slashes(url@),
            r.secret() == view_opt(token),
    {
        let chars = chars_of(url);
        let mut end: usize = chars.len();
        assert(chars@.take(end as int) =~= url@);
        while end > 0 && chars[end - 1] == '/'
            invariant
                end <= chars@.len(),
                without_trailing_slashes(chars@.take(end as int)) == without_trailing_slashes(url@),
            decreases end,
        {
            proof {
                assert(chars@.take(end as int).last() == '/');
                assert(chars@.take(end as int).drop_last() =~= chars@.take(end - 1));
            }
            end -= 1;
        }
        let mut base_url = String::new();
        let mut i: usize = 0;
        while i < end
            invariant
                i <= end <= chars@.len(),
                base_url@ =~= chars@.take(i as int),
            decreases end - i,
        {
            base_url.push(chars[i]);
            i += 1;
        }
        proof {
            if end > 0 {
                assert(chars@.take(end as int).last() == chars@[end - 1]);
            }
        }
        MilvusClient { base_url, token }
    }

    pub fn base_url(&self) -> (r: &str)
        ensures
            r@ == self.url(),
    {
        self.base_url.as_str()
    }

    pub fn token(&self) -> (r: Option<&str>)
        ensures
            view_opt(r) == self.secret(),
    {
        match &self.token {
            Some(token) => Some(token.as_str()),
            None => None,
        }
    }
}

/// Where vectors are kept.
#[derive(Debug)]
pub enum VectorStore {
    Local(LocalStore),
    Milvus(MilvusClient),
}

/// A request to a Milvus server.
#[derive(Debug)]
pub enum MilvusRequest {
    Create { name: String, dimension: usize },
    Has { name: String },
    Drop { name: String },
    Insert { collection: String, rows: Vec<InsertRow> },
    Search { collection: String, top_k: usize },
    List,
    Stats { name: String },
    Delete { collection: String, filter: String },
}

/// What is left to do for an operation.
#[derive(Debug)]
pub enum StoreStep {
    /// Nothing.
    Done,
    /// Write the collection's file.
    Write { name: String },
    /// Remove the collection's file.
    Remove { name: String },
    /// Look for the collection's file.
    Look { name: String },
    /// Read the collection's file unless it is in memory.
    Read { name: String },
    /// List the files of all collections.
    ListFiles,
    /// Ask the server.
    Ask { request: MilvusRequest },
}

pub enum RequestView {
    Create { name: Seq<char>, dimension: usize },
    Has { name: Seq<char> },
    Drop { name: Seq<char> },
    Insert { collection: Seq<char>, rows: Seq<DocView> },
    Search { collection: Seq<char>, top_k: usize },
    List,
    Stats { name: Seq<char> },
    Delete { collection: Seq<char>, filter: Seq<char> },
}

pub enum StepView {
    Done,
    Write { name: Seq<char> },
    Remove { name: Seq<char> },
    Look { name: Seq<char> },
    Read { name: Seq<char> },
    ListFiles,
    Ask { request: RequestView },
}

impl View for MilvusRequest {
    type V = RequestView;

    open spec fn view(&self) -> RequestView {
        match self {
            MilvusRequest::Create { name, dimension } => RequestView::Create {
                name: name@,
                dimension: *dimension,
            },
            MilvusRequest::Has { name } => RequestView::Has { name: name@ },
            MilvusRequest::Drop { name } => RequestView::Drop { name: name@ },
            MilvusRequest::Insert { collection, rows } => RequestView::Insert {
                collection: collection@,
                rows: views(rows@),
            },
            MilvusRequest::Search { collection, top_k } => RequestView::Search {
                collection: collection@,
                top_k: *top_k,
            },
            MilvusRequest::List => RequestView::List,
            MilvusRequest::Stats { name } => RequestView::Stats { name: name@ },
            MilvusRequest::Delete { collection, filter } => RequestView::Delete {
                collection: collection@,
                filter: filter@,
            },
        }
    }
}

impl View for StoreStep {
    type V = StepView;

    open spec fn view(&self) -> StepView {
        match self {
            StoreStep::Done => StepView::Done,
            StoreStep::Write { name } => StepView::Write { name: name@ },
            StoreStep::Remove { name } => StepView::Remove { name: name@ },
            StoreStep::Look { name } => StepView::Look { name: name@ },
            StoreStep::Read { name } => StepView::Read { name: name@ },
            StoreStep::ListFiles => StepView::ListFiles,
            StoreStep::Ask { request } => StepView::Ask { request: request@ },
        }
    }
}

/// A hit as a Milvus server reports it; its metadata is missing when it does not
/// have the layout of `ChunkMeta`.
#[derive(Debug)]
pub struct MilvusHit {
    pub id: String,
    pub score: u32,
    pub content: String,
    pub metadata: Option<ChunkMeta>,
}

impl MilvusHit {
    /// The hit, with empty metadata in place of metadata in another layout.
    pub open spec fn hit(&self) -> HitView {
        HitView {
            id: self.id@,
            score: self.score,
            content: self.content@,
            metadata: match self.metadata {
                Some(metadata) => metadata@,
                None => no_metadata(),
            },
        }
    }
}

/// The name of a backend, as it is recorded beside an index.
pub open spec fn backend_name(milvus_url: Option<Seq<char>>) -> Seq<char> {
    match milvus_url {
        None => "local"@,
        Some(url) => "milvus "@ + url,
    }
}

/// Two servers with different addresses, and a server and the local store, are
/// different backends.
pub proof fn law_backend_names_differ(a: Option<Seq<char>>, b: Option<Seq<char>>)
    requires
        backend_name(a) == backend_name(b),
    ensures
        a == b,
{
    reveal_strlit("local");
    reveal_strlit("milvus ");
    let x = backend_name(a);
    let y = backend_name(b);
    if a is Some && b is Some {
        assert(x.skip(7) =~= a->0);
        assert(y.skip(7) =~= b->0);
    } else if a is Some || b is Some {
        assert("local"@[0] == 'l');
        assert("milvus "@[0] == 'm');
        assert(x[0] == y[0]);
    }
}

impl VectorStore {
    pub open spec fn wf(&self) -> bool {
        match self {
            VectorStore::Local(store) => store.wf(),
            VectorStore::Milvus(_) => true,
        }
    }

    /// The address of the Milvus server, where there is one.
    pub open spec fn server(&self) -> Option<Seq<char>> {
        match self {
            VectorStore::Local(_) => None,
            VectorStore::Milvus(client) => Some(client.url()),
        }
    }

    /// The token for the Milvus server, where there is one.
    pub open spec fn secret(&self) -> Option<Seq<char>> {
        match self {
            VectorStore::Local(_) => None,
            VectorStore::Milvus(client) => client.secret(),
        }
    }

    /// What the local store holds in memory.
    pub open spec fn memory(&self) -> Map<Seq<char>, CollectionView> {
        match self {
            VectorStore::Local(store) => store@,
            VectorStore::Milvus(_) => Map::empty(),
        }
    }

    /// The Milvus server where one is configured, else the local store.
    pub fn from_config(config: &Config) -> (r: Self)
        ensures
            r.wf(),
            r.server() == (if config.uses_milvus() {
                Some(without_trailing_slashes(config.milvus_url@))
            } else {
                None
            }),
            r.secret() == (if config.uses_milvus() {
                view_opt(config.milvus_token)
            } else {
                None
            }),
            r.memory() == Map::<Seq<char>, CollectionView>::empty(),
    {
        if config.has_milvus_url() {
            let token = match &config.milvus_token {
                Some(token) => Some(token.clone()),
                None => None,
            };
            VectorStore::Milvus(MilvusClient::new(config.milvus_url.as_str(), token))
        } else {
            VectorStore::Local(LocalStore::new())
        }
    }

    /// The stable name of the backend that holds the vectors.
    pub fn provenance(&self) -> (r: String)
        ensures
            r@ == backend_name(self.server()),
    {
        match self {
            VectorStore::Local(_) => "local".to_owned(),
            VectorStore::Milvus(client) => {
                let mut name = "milvus ".to_owned();
                name.append(client.base_url());
                name
            },
        }
    }

    pub fn create_collection(&mut self, name: &str, dimension: usize) -> (r: StoreStep)
        requires
            old(self).wf(),
        ensures
            final(self).wf(),
            final(self).server() == old(self).server(),
            final(self).secret() == old(self).secret(),
            match old(self).server() {
                None => r@ == (StepView::Write { name: name@ }) && final(self).memory() == old(self).memory().insert(name@, no_docs(dimension)),
                Some(_) => r@ == (StepView::Ask {
                    request: RequestView::Create { name: name@, dimension },
                }) && *final(self) == *old(self),
            },
    {
        match self {
            VectorStore::Local(store) => {
                store.create_collection(name, dimension);
                StoreStep::Write { name: name.to_owned() }
            },
            VectorStore::Milvus(_) => StoreStep::Ask {
                request: MilvusRequest::Create { name: name.to_owned(), dimension },
            },
        }
    }

    /// How to find out whether a collection exists; `Done` when it is in memory.
    pub fn has_collection(&self, name: &str) -> (r: StoreStep)
        requires
            self.wf(),
        ensures
            r@ == (match self.server() {
                None => if self.memory().contains_key(name@) {
                    StepView::Done
                } else {
                    StepView::Look { name: name@ }
                },
                Some(_) => StepView::Ask { request: RequestView::Has { name: name@ } },
            }),
    {
        match self {
            VectorStore::Local(store) => if store.is_cached(name) {
                StoreStep::Done
            } else {
                StoreStep::Look { name: name.to_owned() }
            },
            VectorStore::Milvus(_) => StoreStep::Ask {
                request: MilvusRequest::Has { name: name.to_owned() },
            },
        }
    }

    pub fn drop_collection(&mut self, name: &str) -> (r: StoreStep)
        requires
            old(self).wf(),
        ensures
            final(self).wf(),
            final(self).server() == old(self).server(),
            final(self).secret() == old(self).secret(),
            match old(self).server() {
                None => r@ == (StepView::Remove { name: name@ }) && final(self).memory() == old(self).memory().remove(name@),
                Some(_) => r@ == (StepView::Ask { request: RequestView::Drop { name: name@ } })
                    && *final(self) == *old(self),
            },
    {
        match self {
            VectorStore::Local(store) => {
                store.drop_collection(name);
                StoreStep::Remove { name: name.to_owned() }
            },
            VectorStore::Milvus(_) => StoreStep::Ask {
                request: MilvusRequest::Drop { name: name.to_owned() },
            },
        }
    }

    /// Inserts rows into the local store, or asks the server to insert them in their
    /// order. The local store takes every row, and says how many these are; a server
    /// reports its own count. `stored` is what the collection's file holds, when it is not in memory.
    pub fn insert_batch(
        &mut self,
        collection: &str,
        data: &[InsertRow],
        stored: Option<Collection>,
    ) -> (r: (Option<usize>, StoreStep))
        requires
            old(self).wf(),
        ensures
            final(self).wf(),
            final(self).server() == old(self).server(),
            final(self).secret() == old(self).secret(),
            match old(self).server() {
                None => {
                    &&& r.0 == Some(data@.len() as usize)
                    &&& data@.len() == 0 ==> r.1@ == StepView::Done && final(self).memory() == old(self).memory()
                    &&& data@.len() > 0 ==> r.1@ == (StepView::Write { name: collection@ })
                        && final(self).memory() == old(self).memory().insert(
                        collection@,
                        extended(
                            known(old(self).memory(), collection@, view_opt(stored)).unwrap_or(
                                no_docs(0),
                            ),
                            views(data@),
                        ),
                    )
                },
                Some(_) => {
                    &&& r.0 is None
                    &&& r.1@ == (StepView::Ask {
                        request: RequestView::Insert { collection: collection@, rows: views(data@) },
                    })
                    &&& *final(self) == *old(self)
                },
            },
    {
        match self {
            VectorStore::Local(store) => {
                let mut docs: Vec<LocalDoc> = Vec::new();
                let mut i: usize = 0;
                while i < data.len()
                    invariant
                        i <= data@.len(),
                        docs@.len() == i,
                        views(docs@) =~= views(data@).take(i as int),
                    decreases data@.len() - i,
                {
                    docs.push(data[i].to_doc());
                    i += 1;
                }
                assert(views(docs@) =~= views(data@));
                let inserted = docs.len();
                if store.insert_docs(collection, docs, stored) {
                    (Some(inserted), StoreStep::Write { name: collection.to_owned() })
                } else {
                    (Some(inserted), StoreStep::Done)
                }
            },
            VectorStore::Milvus(_) => {
                let mut rows: Vec<InsertRow> = Vec::new();
                let mut i: usize = 0;
                while i < data.len()
                    invariant
                        i <= data@.len(),
                        rows@.len() == i,
                        views(rows@) =~= views(data@).take(i as int),
                    decreases data@.len() - i,
                {
                    rows.push(data[i].clone());
                    i += 1;
                }
                assert(views(rows@) =~= views(data@));
                (
                    None,
                    StoreStep::Ask {
                        request: MilvusRequest::Insert { collection: collection.to_owned(), rows },
                    },
                )
            },
        }
    }

    /// How to search: in the local store, once the collection is in memory, or at
    /// the server.
    pub fn search(&self, collection: &str, top_k: usize) -> (r: StoreStep)
        ensures
            r@ == (match self.server() {
                None => StepView::Read { name: collection@ },
                Some(_) => StepView::Ask {
                    request: RequestView::Search { collection: collection@, top_k },
                },
            }),
    {
        match self {
            VectorStore::Local(_) => StoreStep::Read { name: collection.to_owned() },
            VectorStore::Milvus(_) => StoreStep::Ask {
                request: MilvusRequest::Search { collection: collection.to_owned(), top_k },
            },
        }
    }

    pub fn list_collections(&self) -> (r: StoreStep)
        ensures
            r@ == (match self.server() {
                None => StepView::ListFiles,
                Some(_) => StepView::Ask { request: RequestView::List },
            }),
    {
        match self {
            VectorStore::Local(_) => StoreStep::ListFiles,
            VectorStore::Milvus(_) => StoreStep::Ask { request: MilvusRequest::List },
        }
    }

    /// How many rows a collection has, when it is local and in memory; else what
    /// to do to find out.
    pub fn collection_stats(&self, name: &str) -> (r: Result<CollectionStats, StoreStep>)
        requires
            self.wf(),
        ensures
            match r {
                Ok(stats) => self.memory().contains_key(name@) && stats.row_count
                    == self.memory()[name@].docs.len(),
                Err(step) => step@ == (match self.server() {
                    None => StepView::Read { name: name@ },
                    Some(_) => StepView::Ask { request: RequestView::Stats { name: name@ } },
                }),
            },
            r is Ok <==> self.memory().contains_key(name@),
    {
        match self {
            VectorStore::Local(store) => match store.collection(name) {
                Some(collection) => Ok(
                    CollectionStats { row_count: collection.docs.len() as u64 },
                ),
                None => Err(StoreStep::Read { name: name.to_owned() }),
            },
            VectorStore::Milvus(_) => Err(
                StoreStep::Ask { request: MilvusRequest::Stats { name: name.to_owned() } },
            ),
        }
    }

    /// Deletes the rows of the given files from the local store, or asks the server
    /// to, by a filter.
    pub fn delete_by_relative_paths(
        &mut self,
        collection: &str,
        relative_paths: &[String],
        stored: Option<Collection>,
    ) -> (r: StoreStep)
        requires
            old(self).wf(),
        ensures
            final(self).wf(),
            final(self).server() == old(self).server(),
            final(self).secret() == old(self).secret(),
            relative_paths@.len() == 0 ==> r@ == StepView::Done && *final(self) == *old(self),
            relative_paths@.len() > 0 ==> match old(self).server() {
                None => match known(old(self).memory(), collection@, view_opt(stored)) {
                    Some(docs) => r@ == (StepView::Write { name: collection@ }) && final(self).memory() == old(self).memory().insert(
                        collection@,
                        without_files(docs, views(relative_paths@)),
                    ),
                    None => r@ == StepView::Done && final(self).memory() == old(self).memory(),
                },
                Some(_) => r@ == (StepView::Ask {
                    request: RequestView::Delete {
                        collection: collection@,
                        filter: relative_path_filter(views(relative_paths@)),
                    },
                }) && *final(self) == *old(self),
            },
    {
        if relative_paths.len() == 0 {
            return StoreStep::Done;
        }
        match self {
            VectorStore::Local(store) => if store.delete_by_filter(
                collection,
                relative_paths,
                stored,
            ) {
                StoreStep::Write { name: collection.to_owned() }
            } else {
                StoreStep::Done
            },
            VectorStore::Milvus(_) => StoreStep::Ask {
                request: MilvusRequest::Delete {
                    collection: collection.to_owned(),
                    filter: build_relative_path_milvus_filter(relative_paths),
                },
            },
        }
    }
}

/// The hits of a Milvus server in the common form.
pub fn hits_from_milvus(hits: Vec<MilvusHit>) -> (r: Vec<SearchHit>)
    ensures
        r@.len() == hits@.len(),
        forall|i: int| 0 <= i < r@.len() ==> (#[trigger] r@[i])@ == hits@[i].hit(),
{
    let ghost all = hits@;
    let mut out: Vec<SearchHit> = Vec::new();
    for hit in it: hits
        invariant
            it.seq() == all,
            out@.len() == it.index(),
            forall|i: int| 0 <= i < out@.len() ==> (#[trigger] out@[i])@ == all[i].hit(),
    {
        let metadata = match hit.metadata {
            Some(metadata) => metadata,
            None => ChunkMeta::default(),
        };
        out.push(SearchHit { id: hit.id, score: hit.score, content: hit.content, metadata });
    }
    out
}

/// An address loses its trailing slashes, however many, and nothing else.
pub proof fn law_trailing_slashes_go(base: Seq<char>, slashes: Seq<char>)
    requires
        base.len() > 0 ==> base.last() != '/',
        forall|i: int| 0 <= i < slashes.len() ==> #[trigger] slashes[i] == '/',
    ensures
        without_trailing_slashes(base + slashes) == base,
    decreases slashes.len(),
{
    if slashes.len() > 0 {
        let whole = base + slashes;
        assert(whole.last() == slashes[slashes.len() - 1]);
        assert(whole.drop_last() =~= base + slashes.drop_last());
        assert forall|i: int| 0 <= i < slashes.drop_last().len() implies #[trigger] slashes.drop_last()[i]
            == '/' by {
            assert(slashes[i] == '/');
        }
        law_trailing_slashes_go(base, slashes.drop_last());
    } else {
        assert(base + slashes =~= base);
    }
}

/// A hit of a server shows what the server reported; metadata that it did not report
/// says nothing.
pub proof fn law_server_hit_shows_what_was_reported(hit: MilvusHit)
    ensures
        hit.hit().id == hit.id@,
        hit.hit().score == hit.score,
        hit.hit().content == hit.content@,
        hit.metadata is Some ==> hit.hit().metadata == hit.metadata->0@,
        hit.metadata is None ==> hit.hit().metadata.relative_path.len() == 0
            && hit.hit().metadata.file_path.len() == 0 && hit.hit().metadata.language.len() == 0
            && hit.hit().metadata.start_line == 0 && hit.hit().metadata.end_line == 0,
{
}

/// The local store is recorded as such, and a server by its address.
pub proof fn law_backend_is_recorded_by_its_address(url: Seq<char>)
    ensures
        backend_name(None) == seq!['l', 'o', 'c', 'a', 'l'],
        backend_name(Some(url)) == seq!['m', 'i', 'l', 'v', 'u', 's', ' '] + url,
{
    reveal_strlit("local");
    reveal_strlit("milvus ");
    assert("local"@ =~= seq!['l', 'o', 'c', 'a', 'l']);
    assert("milvus "@ =~= seq!['m', 'i', 'l', 'v', 'u', 's', ' ']);
}

/// What a configuration gives: a server where its address is set, with the address
/// stripped of its trailing slashes and the token, and else an empty local store.
pub proof fn law_store_is_the_configured_one(
    config: &Config,
    r: VectorStore,
    base: Seq<char>,
    slashes: Seq<char>,
)
    requires
        call_ensures(VectorStore::from_config, (config,), r),
        config.milvus_url@ == base + slashes,
        base.len() > 0 ==> base.last() != '/',
        forall|i: int| 0 <= i < slashes.len() ==> #[trigger] slashes[i] == '/',
    ensures
        config.milvus_url@.len() > 0 ==> r is Milvus && r.server() == Some(base) && r.secret()
            == view_opt(config.milvus_token),
        config.milvus_url@.len() == 0 ==> r is Local && r.memory() == Map::<
            Seq<char>,
            CollectionView,
        >::empty(),
{
    law_trailing_slashes_go(base, slashes);
}

/// What a store is asked goes to the server where there is one, with the very collection
/// and count that were named; a local store is read, or known from memory.
pub proof fn law_questions_go_to_their_store(
    store: &VectorStore,
    name: &str,
    top_k: usize,
    has: StoreStep,
    search: StoreStep,
    list: StoreStep,
)
    requires
        call_ensures(VectorStore::has_collection, (store, name), has),
        call_ensures(VectorStore::search, (store, name, top_k), search),
        call_ensures(VectorStore::list_collections, (store,), list),
    ensures
        store is Milvus ==> has@ == (StepView::Ask { request: RequestView::Has { name: name@ } })
            && search@ == (StepView::Ask {
            request: RequestView::Search { collection: name@, top_k },
        }) && list@ == (StepView::Ask { request: RequestView::List }),
        store is Local ==> (has@ == StepView::Done <==> store.memory().contains_key(name@)) && (
        has@ == (StepView::Look { name: name@ }) <==> !store.memory().contains_key(name@)) && search@
            == (StepView::Read { name: name@ }) && list@ == StepView::ListFiles,
{
}

/// The hits of a server come in their order, each as it was reported.
pub proof fn law_server_hits_come_in_order(hits: Vec<MilvusHit>, r: Vec<SearchHit>, i: int)
    requires
        call_ensures(hits_from_milvus, (hits,), r),
        0 <= i < hits@.len(),
    ensures
        r@.len() == hits@.len(),
        r@[i].id@ == hits@[i].id@,
        r@[i].score == hits@[i].score,
        r@[i].content@ == hits@[i].content@,
        hits@[i].metadata is Some ==> r@[i].metadata@ == hits@[i].metadata->0@,
{
    assert(r@[i]@ == hits@[i].hit());
}

} // verus!
