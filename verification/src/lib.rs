//! Consistency and canonicalization engine for a taxonomy of named
//! ecosystems: an in-memory graph of ecosystem records, structural
//! validation rules, a repository-URL classifier, a stable
//! case-insensitive ordering and diff engine, and a deterministic
//! canonical text form for each record.

pub mod canonical;
pub mod diffing;
pub mod errors;
pub mod export;
pub mod graph;
pub mod laws;
pub mod model;
pub mod order;
pub mod urls;
pub mod validate;
