//! Content-addressed media cache: a durable dedup index over library folders,
//! an idempotent optimization pipeline keyed by content hash, and a per-folder
//! batch-task coordinator with pause/resume/stop control and progress counters.

pub mod config;
pub mod hashing;
pub mod importer;
pub mod media;
pub mod optimizer;
pub mod scanner;
pub mod store;
pub mod strkit;
pub mod tasks;
pub mod thumbs;
