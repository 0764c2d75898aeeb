//! The rules of a local-first code indexer: how collections are named, what the
//! local vector store holds, how an indexing run decides what to do next, and
//! what its results and refusals say.
//!
//! Nothing here touches a file, a socket or a clock. What the host finds out is
//! passed in, and what it is to do comes back as a value.

pub mod api;
pub mod config;
pub mod encoding;
pub mod engine;
pub mod path;
pub mod report;
pub mod text;
pub mod types;
pub mod vectordb;
