//! Coordination core of a desktop note-taking application: it keeps a
//! full-text search index and a relational metadata store consistent with an
//! on-disk folder of documents that is mutated both by the application itself
//! and by external tools.
//!
//! The crate models every collaborator (metadata store, search index, durable
//! job queue, disk) as a plain-value state machine, so that the classification
//! of watcher events, the activity-lock discipline, the fusion of rename/move
//! event pairs, and the crash-recovery pass of the background worker are all
//! verified. A host program performs the actual file, database and index I/O
//! and drives these functions with the values it read.

pub mod codec;
pub mod coordinator;
pub mod disk;
pub mod fingerprint;
pub mod index_model;
pub mod jobs;
pub mod laws;
pub mod paths;
pub mod queue;
pub mod store;
pub mod text;
pub mod tracker;
