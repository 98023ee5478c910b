//! Chunked, crash-recoverable game-record log with a compressed archive
//! format, and the key/value layout of the shard and game progress cache.
pub mod error;
pub mod record;
pub mod header;
pub mod archive;
pub mod reader;
pub mod writer;
pub mod cache;
pub mod layout;
