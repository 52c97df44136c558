//! What a store is opened with.
use std::path::PathBuf;
use vstd::prelude::*;

use crate::kvstore::StoreType;
use crate::policy::DurabilityPolicy;

verus! {

/// 1 MB.
pub const COMPACTION_THRESHOLD: u64 = 1048576;

/// 1 MB.
pub const FILE_SIZE_THRESHOLD: u64 = 1048576;

/// 1 second.
pub const FLUSH_THRESHOLD_MILLIS: u64 = 1000;

/// Trusted: `std::path::PathBuf`, carried through as an opaque value.
#[verifier::external_type_specification]
#[verifier::external_body]
pub struct ExPathBuf(PathBuf);

/// What a store is opened with.
pub struct Config {
    /// Where the files of the store are.
    pub dir: PathBuf,
    /// When writes are forced to disk.
    pub durability_policy: DurabilityPolicy,
    /// From this size on a data file is full.
    pub file_size_threshold: u64,
    /// From this many stale bytes on the sealed files are merged.
    pub compaction_threshold: u64,
    /// The flush interval.
    pub flush_threshold_millis: u64,
    /// The engine behind the store.
    pub store_type: StoreType,
}

impl Config {
    /// The default settings for a store in `dir`.
    pub fn new<D: Into<PathBuf>>(dir: D, store_type: StoreType) -> (res: Self)
        ensures
            call_ensures(D::into, (dir,), res.dir),
            res.durability_policy == DurabilityPolicy::OsDecides,
            res.file_size_threshold == FILE_SIZE_THRESHOLD,
            res.compaction_threshold == COMPACTION_THRESHOLD,
            res.flush_threshold_millis == FLUSH_THRESHOLD_MILLIS,
            res.store_type == store_type,
    {
        Config {
            dir: dir.into(),
            durability_policy: DurabilityPolicy::OsDecides,
            file_size_threshold: FILE_SIZE_THRESHOLD,
            compaction_threshold: COMPACTION_THRESHOLD,
            flush_threshold_millis: FLUSH_THRESHOLD_MILLIS,
            store_type,
        }
    }
}

} // verus!
