//! Vault indexing engine: watches a directory tree of documents, extracts
//! structured front-matter metadata, and keeps an in-memory index consistent
//! with the filesystem as files are created, edited, renamed, or deleted.
//!
//! The verified core covers identity-key resolution, change tokens, the
//! index store, event normalization, and the reconciliation state machine.
//! Filesystem traversal, file reading, and the watch loop live outside the
//! library and feed it plain values.

pub mod config;
pub mod data;
pub mod events;
pub mod fingerprint;
pub mod index;
pub mod path_expander;
pub mod reconciler;
pub mod util;
