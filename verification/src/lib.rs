//! Core of an incremental file-hashing daemon.
//!
//! The library answers two questions about a project tree: "what is the
//! content hash of the files matching `(root, path, glob)`?" and "tell me
//! when that set changes".  It holds the two-tier hash cache, the watcher
//! bookkeeping keyed by root, the debounce/invalidate/fan-out pipeline,
//! the subscription registry with its deterministic keys, and the
//! per-connection session state machine.  Socket handling, file reading
//! and log output live outside the library.

pub mod daemon;
pub mod digest;
pub mod hash_service;
pub mod hasher;
pub mod hexfmt;
pub mod kv;
pub mod paths;
pub mod pipeline;
pub mod persistence;
pub mod protocol;
pub mod server;
pub mod session;
pub mod subscriptions;
