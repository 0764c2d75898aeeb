//! Settings of an indexer.

use vstd::prelude::*;

verus! {

/// What an operator configures. An empty URL means that the service is not used.
#[derive(Debug)]
pub struct Config {
    /// Where embeddings are computed.
    pub embedding_url: String,
    /// How many numbers an embedding has.
    pub embedding_dimension: usize,
    /// The Milvus server that holds the vectors.
    pub milvus_url: String,
    pub milvus_token: Option<String>,
    /// How many embedding batches may be under way at once.
    pub concurrency: usize,
    /// The largest chunk, in bytes.
    pub chunk_size: usize,
    /// How much neighbouring chunks share, in characters.
    pub chunk_overlap: usize,
}

impl Config {
    pub open spec fn embeds(&self) -> bool {
        self.embedding_url@.len() > 0
    }

    pub open spec fn uses_milvus(&self) -> bool {
        self.milvus_url@.len() > 0
    }

    /// Whether an embeddings endpoint is configured.
    pub fn has_embedding_url(&self) -> (r: bool)
        ensures
            r == self.embeds(),
    {
        !self.embedding_url.as_str().is_empty()
    }

    /// Whether a Milvus server is configured.
    pub fn has_milvus_url(&self) -> (r: bool)
        ensures
            r == self.uses_milvus(),
    {
        !self.milvus_url.as_str().is_empty()
    }
}

/// A service is used exactly where its address has a character.
pub proof fn law_service_is_used_where_it_has_an_address(config: Config)
    ensures
        config.embeds() <==> config.embedding_url@ != Seq::<char>::empty(),
        config.uses_milvus() <==> config.milvus_url@ != Seq::<char>::empty(),
{
    assert(config.embedding_url@.len() == 0 ==> config.embedding_url@ =~= Seq::empty());
    assert(config.milvus_url@.len() == 0 ==> config.milvus_url@ =~= Seq::empty());
}

} // verus!
