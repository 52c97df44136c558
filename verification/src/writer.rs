//! What only the writer of a store needs to know.
use vstd::prelude::*;

verus! {

/// The state of the single writer: the active file, how much of it is written
/// and how much of that is known to be on disk, when it was last forced there,
/// and how many bytes of the log no longer matter.
#[derive(Debug, Clone, Copy, PartialEq, Eq, Structural)]
pub struct WriterState {
    pub current_file_id: u64,
    pub offset: u64,
    pub flushed_offset: u64,
    pub last_ts_flushed: u64,
    pub stale_bytes_count: u64,
}

impl WriterState {
    /// A writer at the start of a file, at the time `now` in milliseconds.
    pub fn new(current_file_id: u64, now: u64) -> (res: WriterState)
        ensures
            res == (WriterState {
                current_file_id,
                offset: 0,
                flushed_offset: 0,
                last_ts_flushed: now,
                stale_bytes_count: 0,
            }),
    {
        WriterState {
            current_file_id,
            offset: 0,
            flushed_offset: 0,
            last_ts_flushed: now,
            stale_bytes_count: 0,
        }
    }
}

} // verus!
