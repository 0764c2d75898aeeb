//! The indexing engine: what a run does, step by step.

pub mod accounts;
pub mod batch;
pub mod board;
pub mod control;
pub mod embedding;
pub mod history;
pub mod indexer;
pub mod manifest;
pub mod milestones;
pub mod status;
