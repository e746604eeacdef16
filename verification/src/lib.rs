//! A minimal note-management core: value types for notes, tags and users,
//! a `Persister` contract that abstracts over storage technology, and an
//! in-memory reference engine with soft deletion, tag deduplication and
//! owner- or tag-filtered queries.

pub mod models;
pub mod persistence;
