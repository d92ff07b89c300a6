//! The logic of a read-only, read-ahead caching filesystem.
//!
//! The crate keeps the caches, makes the decisions and does the arithmetic. It
//! never touches a disk, a kernel, a clock or a terminal, and never waits: its
//! callers do, and hand it what came of that as plain values.

pub mod attr;
pub mod dingus;
pub mod errno;
pub mod file;
pub mod file_laws;
pub mod fs;
pub mod handles;
pub mod laws;
pub mod path;
pub mod path_laws;
pub mod path_map;
pub mod request;
pub mod status;
pub mod turn;
pub mod worker;
