//! Core of a concurrent HTTP download manager: progress-set bookkeeping,
//! configuration inheritance, range scheduling, the per-task pipeline state
//! machine, and the task table with its parallelism ceiling.
//!
//! Transport, file writing and the async control surface live outside this
//! crate; they hand plain values in and take plain values back.

pub mod config;
pub mod entry;
pub mod gid;
pub mod log_if_err;
pub mod manager;
pub mod progress;
pub mod schedule;
pub mod unique_path;

pub use manager::Downloader;
