//! Planning and bookkeeping for chunked, concurrent file downloads.
//!
//! The crate holds the decisions of a downloader: how a resource is split
//! into byte ranges, where each received piece is written, how progress is
//! counted and when a job has succeeded. It performs no I/O itself; a caller
//! does the network and file work and reports what happened.

pub mod ranges;
pub mod assembly;
pub mod douyin;
pub mod downloader;
pub mod media;
pub mod pattern;
pub mod savepath;
pub mod text;
pub mod worker;
