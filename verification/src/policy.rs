//! When writes are forced to disk.
use vstd::prelude::*;

verus! {

/// When writes are forced to disk.
#[derive(Clone, Copy, Debug, PartialEq, Eq, Structural)]
pub enum DurabilityPolicy {
    /// After every write.
    SyncOnEveryPut,
    /// After a write, once the flush interval has passed.
    SyncOnInterval,
    /// Whenever the operating system sees fit.
    OsDecides,
}

} // verus!
