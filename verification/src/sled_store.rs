//! What is decided around a store whose engine is sled.
use vstd::prelude::*;
use vstd::utf8::{decode_utf8, valid_utf8};

use crate::config::Config;
use crate::error::{IoError, KvsError, KvsErrorView};
use crate::policy::DurabilityPolicy;
use crate::text::string_from_utf8;

verus! {

/// How often sled flushes by itself, in milliseconds.
pub fn flush_every_ms(config: &Config) -> (interval: Option<u64>)
    ensures
        interval == (if config.durability_policy == DurabilityPolicy::SyncOnInterval {
            Some(config.flush_threshold_millis)
        } else {
            None
        }),
{
    match config.durability_policy {
        DurabilityPolicy::SyncOnInterval => Some(config.flush_threshold_millis),
        _ => None,
    }
}

/// Whether every write is flushed.
pub fn sync_every_put(config: &Config) -> (sync: bool)
    ensures
        sync == (config.durability_policy == DurabilityPolicy::SyncOnEveryPut),
{
    match config.durability_policy {
        DurabilityPolicy::SyncOnEveryPut => true,
        _ => false,
    }
}

/// What a removal comes to: whether it has to be flushed, or that there was
/// nothing to remove.
pub fn remove_outcome(found: bool, sync_every_put: bool) -> (res: Result<bool, KvsError>)
    ensures
        found ==> res == Ok::<bool, KvsError>(sync_every_put),
        !found ==> res is Err && res->Err_0@ == KvsErrorView::KeyNotFound,
{
    if found {
        Ok(sync_every_put)
    } else {
        Err(KvsError::KeyNotFound)
    }
}

/// What a read comes to.
pub fn get_outcome(value: Option<Vec<u8>>) -> (res: Result<Option<String>, KvsError>)
    ensures
        match value {
            None => res is Ok && res->Ok_0 is None,
            Some(bytes) => if valid_utf8(bytes@) {
                res is Ok && res->Ok_0 is Some && res->Ok_0->0@ == decode_utf8(bytes@)
            } else {
                res is Err && res->Err_0@ == KvsErrorView::Utf8(bytes@)
            },
        },
{
    match value {
        None => Ok(None),
        Some(bytes) => match string_from_utf8(bytes) {
            Ok(s) => Ok(Some(s)),
            Err(bytes) => Err(KvsError::Utf8(bytes)),
        },
    }
}

/// How sled fails.
#[derive(Debug)]
pub enum SledFailure {
    /// The operating system failed.
    Io(IoError),
    /// The database is corrupt.
    Corruption,
    /// Anything else, in its own words.
    Other(String),
}

/// The error for a failure of sled.
pub fn error_for(failure: SledFailure) -> (e: KvsError)
    ensures
        e@ == (match failure {
            SledFailure::Io(io) => KvsErrorView::Io(io@),
            SledFailure::Corruption => KvsErrorView::Corruption,
            SledFailure::Other(text) => KvsErrorView::InvalidData(text@),
        }),
{
    match failure {
        SledFailure::Io(io) => KvsError::Io(io),
        SledFailure::Corruption => KvsError::Corruption,
        SledFailure::Other(text) => KvsError::InvalidData(text),
    }
}

} // verus!
