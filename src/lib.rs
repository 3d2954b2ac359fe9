//! A small memcached-style cache: the text protocol's parser and executor,
//! and an in-memory store whose records expire on access.
pub mod command;
pub mod errors;
pub mod framing;
pub mod hash_map_storage;
pub mod protocol;
pub mod semantics;
pub mod storage;
pub mod text;
pub mod util;

pub use errors::AppError;
pub use util::unix_timestamp_now;
