//! Single-flight image cache for stickers: deterministic cache paths, the
//! registry of conversions in flight, the conversion job's state machine and
//! the pixel buffers it moves, together with the account pairing kept beside it.

pub mod cache;
pub mod command;
pub mod coordinator;
pub mod database;
pub mod job;
pub mod magic;
pub mod path;
pub mod search;
pub mod text;
pub mod transcode;
pub mod user;
pub mod users_file;
