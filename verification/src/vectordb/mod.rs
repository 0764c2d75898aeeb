//! Vector collections: how they are named, the local store, and the choice
//! between that store and a Milvus server.

pub mod files;
pub mod local;
pub mod naming;
pub mod ranking;
pub mod store;
