//! Core engine for tracking repository state: a relational in-memory store
//! with uniqueness and referential invariants, a pure branch-status
//! classifier, a traffic-light priority scorer, group management with a
//! single-group-per-repository guarantee, sync orchestration that replaces
//! dependent rows wholesale, and a deterministic export snapshot builder.

mod clock;
pub mod config;
pub mod error;
pub mod export;
pub mod fixtures;
pub mod github;
pub mod laws;
pub mod local_git;
pub mod models;
pub mod order;
pub mod priority;
pub mod store;
pub mod strutil;
pub mod sync;
pub mod table;
