//! The rules of a store, stated of what its operations decide and return.
use std::path::PathBuf;
use vstd::prelude::*;
use vstd::utf8::{decode_utf8, encode_utf8, valid_utf8};

use crate::bitcask::Bitcask;
use crate::command::{Command, CommandView};
use crate::config::Config;
use crate::error::{KvsError, KvsErrorView};
use crate::index_value::IndexValue;
use crate::kvstore::StoreType;
use crate::log_model::{store_contents, LogFile};
use crate::merge::Merge;
use crate::policy::DurabilityPolicy;
use crate::sled_store::{
    error_for, flush_every_ms, get_outcome, remove_outcome, sync_every_put, SledFailure,
};
use crate::store_model::{law_get, law_sealed_files, represents};

verus! {

/// Under an interval the log is forced to disk from the moment on at which the
/// interval has passed since it last was: never earlier, and never late.
pub proof fn law_sync_on_interval(store: &Bitcask, now: u64, due: bool)
    requires
        call_ensures(Bitcask::handle_policy, (store, now), due),
        store.config.durability_policy == DurabilityPolicy::SyncOnInterval,
        now >= store.writer.last_ts_flushed,
    ensures
        due <==> now >= store.writer.last_ts_flushed + store.config.flush_threshold_millis,
{
}

/// Once a sync is due it stays due at every later time, and whatever is written
/// meanwhile, until one is entered.
pub proof fn law_sync_stays_due(
    store: &Bitcask,
    written: &Bitcask,
    c: CommandView,
    len: usize,
    now: u64,
    later: u64,
    due: bool,
    still_due: bool,
)
    requires
        call_ensures(Bitcask::handle_policy, (store, now), due),
        store.appended(written, c, len),
        call_ensures(Bitcask::handle_policy, (written, later), still_due),
        store.writer.last_ts_flushed <= now <= later,
    ensures
        due ==> still_due,
        now == later ==> due == still_due,
{
}

/// Once a sync is entered the interval starts anew, and all that was written
/// counts as being on disk.
pub proof fn law_sync_starts_anew(
    store: &Bitcask,
    after: &Bitcask,
    now: u64,
    later: u64,
    due: bool,
)
    requires
        store.policy_forced(after, now),
        call_ensures(Bitcask::handle_policy, (after, later), due),
        store.config.durability_policy == DurabilityPolicy::SyncOnInterval,
        now <= later,
    ensures
        due <==> later - now >= store.config.flush_threshold_millis,
        after.writer.flushed_offset == after.writer.offset,
        after.writer.offset == store.writer.offset,
        after.writer.current_file_id == store.writer.current_file_id,
        after.writer.stale_bytes_count == store.writer.stale_bytes_count,
        after.index == store.index && after.readers == store.readers,
{
}

/// So it is behind a rotation, which forces the log to disk as well.
pub proof fn law_rotation_starts_anew(
    store: &Bitcask,
    after: &Bitcask,
    id: u64,
    now: u64,
    later: u64,
    due: bool,
)
    requires
        store.rotated(after, id, now),
        call_ensures(Bitcask::handle_policy, (after, later), due),
        store.config.durability_policy == DurabilityPolicy::SyncOnInterval,
        now <= later,
    ensures
        due <==> later - now >= store.config.flush_threshold_millis,
        after.writer.offset == 0 && after.writer.flushed_offset == 0,
        after.writer.stale_bytes_count == store.writer.stale_bytes_count,
{
}

/// Forcing the log to disk changes nothing but what counts as being there.
pub proof fn law_forced(store: &Bitcask, after: &Bitcask)
    requires
        store.forced(after),
    ensures
        after.writer.flushed_offset == store.writer.offset,
        after.writer.offset == store.writer.offset,
        after.writer.last_ts_flushed == store.writer.last_ts_flushed,
        after.writer.stale_bytes_count == store.writer.stale_bytes_count,
        after.writer.current_file_id == store.writer.current_file_id,
        after.index == store.index && after.readers == store.readers,
{
}

/// The other policies do not look at the clock: one syncs behind every write,
/// the other never.
pub proof fn law_sync_without_clock(store: &Bitcask, now: u64, due: bool)
    requires
        call_ensures(Bitcask::handle_policy, (store, now), due),
    ensures
        store.config.durability_policy == DurabilityPolicy::SyncOnEveryPut ==> due,
        store.config.durability_policy == DurabilityPolicy::OsDecides ==> !due,
{
}

/// A merge is due from the threshold of stale bytes on: not before it, and at
/// every count that is no smaller.
pub proof fn law_merge_due(store: &Bitcask, due: bool)
    requires
        call_ensures(Bitcask::compaction_trigger, (store,), due),
    ensures
        due <==> store.config.compaction_threshold <= store.writer.stale_bytes_count,
{
}

/// The files that are merged, when a merge is due, are all files of the store
/// but the active one; else none.
pub proof fn law_merge_offer(
    store: &Bitcask,
    files: Seq<LogFile>,
    due: bool,
    ids: Vec<u64>,
)
    requires
        represents(store, files),
        call_ensures(Bitcask::compaction_trigger, (store,), due),
        call_ensures(Bitcask::merge_sources, (store,), ids),
    ensures
        due ==> ids@ == Seq::new((files.len() - 1) as nat, |i: int| files[i].id),
        !due ==> ids@.len() == 0,
{
    law_sealed_files(*store, files);
}

/// A merge that is planned counts the stale bytes that there are, goes by the
/// size that a data file may have, and reserves as many ids as full outputs of
/// that size can come of its sources, and two more.
pub proof fn law_planned(store: &Bitcask, merge: &Merge)
    requires
        merge.wf(),
        merge.planned(store, merge.sources@),
    ensures
        merge.init_stale_bytes == store.writer.stale_bytes_count,
        merge.file_size_threshold == store.config.file_size_threshold,
        merge.next_active == store.writer.current_file_id + merge.total() / (
        store.config.file_size_threshold as int) + 3,
{
}

/// What was counted as stale when the merge started is subtracted at its end,
/// and what has come up since stays.
pub proof fn law_settled(merge: &Merge, store: &Bitcask, after: &Bitcask)
    requires
        merge.completed(store, after),
        store.writer.stale_bytes_count >= merge.init_stale_bytes,
    ensures
        after.writer.stale_bytes_count + merge.init_stale_bytes == store.writer.stale_bytes_count,
        after.writer.offset == store.writer.offset,
        after.writer.flushed_offset == store.writer.flushed_offset,
        after.writer.last_ts_flushed == store.writer.last_ts_flushed,
        after.writer.current_file_id == store.writer.current_file_id,
        after.index == store.index && after.readers == store.readers,
{
}

/// The log moves on to the file with the next id as soon as the active file has
/// reached its size, and not before.
pub proof fn law_rotation_due(store: &Bitcask, next: Option<u64>)
    requires
        call_ensures(Bitcask::rotate_if_full, (store,), next),
        store.writer.current_file_id < u64::MAX,
    ensures
        next is Some <==> store.config.file_size_threshold <= store.writer.offset,
        next is Some ==> next->0 == store.writer.current_file_id + 1,
{
}

/// Behind a write, and the rotation that it may call for, the active file is
/// shorter than its size.
pub proof fn law_active_file_is_not_full(
    store: &Bitcask,
    next: Option<u64>,
    after: &Bitcask,
    now: u64,
)
    requires
        call_ensures(Bitcask::rotate_if_full, (store,), next),
        store.config.file_size_threshold > 0,
        match next {
            Some(id) => store.rotated(after, id, now),
            None => after == store,
        },
    ensures
        after.writer.offset < after.config.file_size_threshold,
{
}

/// Entering a record for a key raises the count of stale bytes by exactly the
/// length of the record that the index held for the key, and by nothing where
/// it held none. The active file grows by the record, and what is on disk and
/// since when is another matter.
pub proof fn law_superseded_bytes(
    store: &Bitcask,
    after: &Bitcask,
    c: CommandView,
    len: usize,
)
    requires
        store.has_room(c.key(), len as int),
        store.appended(after, c, len),
    ensures
        store.index@.contains_key(c.key()) ==> after.writer.stale_bytes_count
            == store.writer.stale_bytes_count + store.index@[c.key()].len,
        !store.index@.contains_key(c.key()) ==> after.writer.stale_bytes_count
            == store.writer.stale_bytes_count,
        after.writer.offset == store.writer.offset + len,
        after.writer.flushed_offset == store.writer.flushed_offset,
        after.writer.last_ts_flushed == store.writer.last_ts_flushed,
        after.writer.current_file_id == store.writer.current_file_id,
{
}

/// A record can be entered as long as the two counters hold: the length of the
/// active file with it, and the stale bytes with the record that it supersedes.
pub proof fn law_room(store: &Bitcask, command: &Command, len: usize, fits: bool)
    requires
        call_ensures(Bitcask::can_append, (store, command, len), fits),
    ensures
        ({
            let key = command@.key();
            let old_len = if store.index@.contains_key(key) {
                store.index@[key].len as int
            } else {
                0
            };
            fits <==> store.writer.offset + len < 0x1_0000_0000_0000_0000
                && store.writer.stale_bytes_count + old_len < 0x1_0000_0000_0000_0000
        }),
{
}

/// A key can be removed exactly if the contents have it; else it is reported as
/// missing.
pub proof fn law_remove_needs_key(
    store: &Bitcask,
    files: Seq<LogFile>,
    key: &str,
    res: Result<(), KvsError>,
)
    requires
        represents(store, files),
        call_ensures(Bitcask::check_remove, (store, key), res),
    ensures
        res is Ok <==> store_contents(files).contains_key(encode_utf8(key@)),
        res is Err ==> res->Err_0@ == KvsErrorView::KeyNotFound,
{
    law_get(*store, files, encode_utf8(key@), -1);
}

/// The records of a set and of a removal say what was asked for.
pub proof fn law_records<'a>(
    key: &'a str,
    value: &'a str,
    ts: u64,
    set: Command<'a>,
    rm: Command<'a>,
)
    requires
        call_ensures(Bitcask::set_command, (key, value, ts), set),
        call_ensures(Bitcask::remove_command, (key, ts), rm),
    ensures
        set@.value() == Some(encode_utf8(value@)),
        rm@.value() is None,
        set@.key() == encode_utf8(key@) && rm@.key() == encode_utf8(key@),
        set@.ts() == ts && rm@.ts() == ts,
{
}

/// A read of a key finds an entry exactly if the contents have the key; and
/// what is read from the bytes that the entry names is the value of the key.
pub proof fn law_read_call(
    store: &Bitcask,
    files: Seq<LogFile>,
    key: &str,
    entry: Option<IndexValue>,
    f: int,
    buf: Vec<u8>,
    res: Result<Option<String>, KvsError>,
)
    requires
        represents(store, files),
        call_ensures(Bitcask::lookup, (store, key), entry),
        entry is Some ==> 0 <= f < files.len() && files[f].id == entry->0.file_id && buf@
            == files[f].bytes().subrange(
            entry->0.offset as int,
            entry->0.offset + entry->0.len,
        ),
        call_ensures(Bitcask::read_value, (buf,), res),
    ensures
        ({
            let contents = store_contents(files);
            let k = encode_utf8(key@);
            &&& entry is Some <==> contents.contains_key(k)
            &&& entry is Some && valid_utf8(contents[k]) ==> {
                &&& res is Ok
                &&& res->Ok_0 is Some
                &&& res->Ok_0->0@ == decode_utf8(contents[k])
            }
            &&& entry is Some && !valid_utf8(contents[k]) ==> {
                &&& res is Err
                &&& res->Err_0@ == KvsErrorView::Utf8(contents[k])
            }
        }),
{
    law_get(*store, files, encode_utf8(key@), f);
}

/// The settings that a store has unless it is told otherwise: files of 1 MiB,
/// a merge at 1 MiB of stale bytes, a flush interval of a second, and the
/// operating system decides when to write.
pub proof fn law_defaults<D: Into<PathBuf>>(dir: D, store_type: StoreType, config: Config)
    requires
        call_ensures(Config::new::<D>, (dir, store_type), config),
    ensures
        config.file_size_threshold == 1024 * 1024,
        config.compaction_threshold == 1024 * 1024,
        config.flush_threshold_millis == 1000,
        config.durability_policy == DurabilityPolicy::OsDecides,
        config.store_type == store_type,
        call_ensures(D::into, (dir,), config.dir),
{
}

/// With sled the policies mean the same: a flush behind every write, one on the
/// interval, or neither.
pub proof fn law_sled_policies(config: &Config, every_ms: Option<u64>, every_put: bool)
    requires
        call_ensures(flush_every_ms, (config,), every_ms),
        call_ensures(sync_every_put, (config,), every_put),
    ensures
        every_put <==> config.durability_policy == DurabilityPolicy::SyncOnEveryPut,
        every_ms is Some <==> config.durability_policy == DurabilityPolicy::SyncOnInterval,
        every_ms is Some ==> every_ms->0 == config.flush_threshold_millis,
{
}

/// With sled a removal needs a key that is there, a read returns the text that
/// is stored, and what is no text is reported with its bytes.
pub proof fn law_sled_outcomes(
    found: bool,
    every_put: bool,
    removed: Result<bool, KvsError>,
    value: Option<Vec<u8>>,
    got: Result<Option<String>, KvsError>,
)
    requires
        call_ensures(remove_outcome, (found, every_put), removed),
        call_ensures(get_outcome, (value,), got),
    ensures
        removed is Ok <==> found,
        removed is Ok ==> removed->Ok_0 == every_put,
        removed is Err ==> removed->Err_0@ == KvsErrorView::KeyNotFound,
        got is Ok <==> value is None || valid_utf8(value->0@),
        got is Ok ==> (got->Ok_0 is Some <==> value is Some),
        got is Ok && value is Some ==> got->Ok_0->0@ == decode_utf8(value->0@),
        got is Err ==> got->Err_0@ == KvsErrorView::Utf8(value->0@),
{
}

/// A failure of sled stays what it is: of the operating system, a corrupt
/// database, or something else in its own words.
pub proof fn law_sled_failures(failure: SledFailure, e: KvsError)
    requires
        call_ensures(error_for, (failure,), e),
    ensures
        e@ is Io <==> failure is Io,
        e@ is Io ==> e@->Io_0 == failure->Io_0@,
        e@ is Corruption <==> failure is Corruption,
        e@ is InvalidData <==> failure is Other,
        e@ is InvalidData ==> e@->InvalidData_0 == failure->Other_0@,
{
}

} // verus!
