//! A Bitcask-style log-structured key/value store.
//!
//! Writes append records to an active log file that rolls over at a size
//! threshold; sealed files are immutable. An in-memory index maps each key to
//! the place of its latest record. A merge copies what still matters out of
//! the sealed files, and writes a hint file next to each file that it makes,
//! from which the index can be loaded.
//!
//! The crate holds the formats, the bookkeeping and the decisions; files,
//! clocks, threads and sockets are in the hands of its callers.
pub mod bitcask;
pub mod byte_reader;
pub mod bytes_util;
pub mod calls;
pub mod checksum;
pub mod command;
pub mod config;
pub mod error;
pub mod file_name;
pub mod history;
pub mod index;
pub mod index_value;
pub mod kvstore;
pub mod loader;
pub mod lock_file;
pub mod log_model;
pub mod merge;
pub mod merge_model;
pub mod merge_run;
pub mod network;
pub mod policy;
pub mod record_reader;
pub mod recovery;
pub mod repl_helper;
pub mod rules;
pub mod sled_store;
pub mod stale;
pub mod store_model;
pub mod text;
pub mod writer;

pub use bitcask::Bitcask;
pub use config::Config;
pub use error::KvsError;
pub use kvstore::{KvStore, StoreType};
pub use policy::DurabilityPolicy;
pub use repl_helper::{parse_command, ReplCommand};
