//! The decisions and the bookkeeping of a Bitcask store: what a read has to
//! fetch, what a write changes, when the log is forced to disk, when it moves
//! on to another file and when it is merged.
//!
//! The files themselves are in the hands of the caller, who writes a record
//! before it is entered here.
use vstd::prelude::*;
use vstd::utf8::{decode_utf8, encode_utf8, valid_utf8};

use crate::command::{decode, Command, CommandView};
use crate::config::Config;
use crate::error::{KvsError, KvsErrorView};
use crate::index::{map_get, Index};
use crate::index_value::IndexValue;
use crate::loader::{
    file_views, replay_files, total_len, FileImage, FileImageView, FileReplay, Loader,
    ReplayState,
};
use crate::policy::DurabilityPolicy;
use crate::text::string_from_utf8;
use crate::writer::WriterState;

verus! {

/// The in-memory side of a store: its settings, where each key stands, the
/// state of the writer, and the ids of its data files in ascending order.
pub struct Bitcask {
    pub config: Config,
    pub index: Index,
    pub writer: WriterState,
    pub readers: Vec<u64>,
}

/// Where the keys stand behind a record of `len` bytes at `offset` of a file.
pub open spec fn keydir_after(
    keydir: Map<Seq<u8>, IndexValue>,
    c: CommandView,
    file_id: u64,
    offset: u64,
    len: usize,
) -> Map<Seq<u8>, IndexValue> {
    match c {
        CommandView::Put { ts, key, .. } => keydir.insert(
            key,
            IndexValue { file_id, ts, offset, len },
        ),
        CommandView::Rm { key, .. } => keydir.remove(key),
    }
}

/// The bytes that go stale when a key is written again.
pub open spec fn superseded(keydir: Map<Seq<u8>, IndexValue>, key: Seq<u8>) -> int {
    match map_get(keydir, key) {
        Some(value) => value.len as int,
        None => 0,
    }
}

/// The ids are in ascending order, and none occurs twice.
pub open spec fn ascending(ids: Seq<u64>) -> bool {
    forall|i: int, j: int| 0 <= i < j < ids.len() ==> ids[i] < ids[j]
}

/// What the bytes of an entry are read as. The value is what the record ends
/// in.
pub open spec fn value_in(buf: Seq<u8>) -> Result<Option<Seq<char>>, KvsErrorView> {
    match decode(buf) {
        Err(e) => Err(e),
        Ok((CommandView::Rm { .. }, _)) => Ok(None),
        Ok((CommandView::Put { value, .. }, _)) => {
            let tail = buf.skip(buf.len() - value.len());
            if valid_utf8(tail) {
                Ok(Some(decode_utf8(tail)))
            } else {
                Err(KvsErrorView::Utf8(tail))
            }
        },
    }
}

/// The ids of files.
pub open spec fn ids_of(images: Seq<FileImageView>) -> Seq<u64> {
    images.map_values(|image: FileImageView| image.id)
}

/// The files that a store is opened over: those that are there, or a first,
/// empty one.
pub open spec fn files_to_open(images: Seq<FileImageView>) -> Seq<FileImageView> {
    if images.len() == 0 {
        seq![FileImageView { id: 1, data: Seq::empty(), hint: None }]
    } else {
        images
    }
}

/// What replaying the files of a store gives, the last of which is active.
pub open spec fn opening(images: Seq<FileImageView>) -> (
    ReplayState,
    Result<Seq<FileReplay>, KvsErrorView>,
) {
    let all = files_to_open(images);
    replay_files(
        all,
        all.last().id,
        ReplayState { keydir: Map::empty(), stale: 0, offset: 0 },
    )
}

/// Puts an id in its place among others.
pub fn insert_id(ids: &mut Vec<u64>, id: u64)
    requires
        ascending(old(ids)@),
    ensures
        ascending(final(ids)@),
        forall|x: u64| #[trigger] final(ids)@.contains(x) <==> (old(ids)@.contains(x) || x == id),
{
    let mut i: usize = 0;
    while i < ids.len() && ids[i] < id
        invariant
            i <= ids@.len(),
            ids@ == old(ids)@,
            forall|j: int| 0 <= j < i ==> ids@[j] < id,
        decreases ids@.len() - i,
    {
        i += 1;
    }
    if i < ids.len() && ids[i] == id {
        return;
    }
    ids.insert(i, id);
    proof {
        let before = old(ids)@;
        assert(ids@ == before.insert(i as int, id));
        assert forall|x: u64| #[trigger] ids@.contains(x) <==> (before.contains(x) || x == id) by {
            if before.contains(x) {
                let j = choose|j: int| 0 <= j < before.len() && before[j] == x;
                assert(ids@[if j < i {
                    j
                } else {
                    j + 1
                }] == x);
            }
            if x == id {
                assert(ids@[i as int] == x);
            }
            if ids@.contains(x) {
                let j = choose|j: int| 0 <= j < ids@.len() && ids@[j] == x;
                if j != i {
                    assert(before[if j < i {
                        j
                    } else {
                        j - 1
                    }] == x);
                }
            }
        }
    }
}

/// Takes an id out.
pub fn remove_id(ids: &mut Vec<u64>, id: u64)
    requires
        ascending(old(ids)@),
    ensures
        ascending(final(ids)@),
        forall|x: u64| #[trigger] final(ids)@.contains(x) <==> (old(ids)@.contains(x) && x != id),
{
    let mut i: usize = 0;
    while i < ids.len() && ids[i] < id
        invariant
            i <= ids@.len(),
            ids@ == old(ids)@,
            forall|j: int| 0 <= j < i ==> ids@[j] < id,
        decreases ids@.len() - i,
    {
        i += 1;
    }
    if i < ids.len() && ids[i] == id {
        ids.remove(i);
    }
    proof {
        let before = old(ids)@;
        assert forall|x: u64| #[trigger] ids@.contains(x) <==> (before.contains(x) && x != id) by {
            if before.contains(x) && x != id {
                let j = choose|j: int| 0 <= j < before.len() && before[j] == x;
                assert(ids@[if j < i || ids@ == before {
                    j
                } else {
                    j - 1
                }] == x);
            }
            if ids@.contains(x) {
                let j = choose|j: int| 0 <= j < ids@.len() && ids@[j] == x;
                assert(before[if j < i || ids@ == before {
                    j
                } else {
                    j + 1
                }] == x);
            }
        }
    }
}

impl Bitcask {
    /// The files are in order.
    pub open spec fn wf(&self) -> bool {
        ascending(self.readers@)
    }

    /// The store that a loader has replayed, over the files with these ids.
    pub fn loaded(config: Config, loader: Loader, readers: Vec<u64>) -> (res: Bitcask)
        requires
            ascending(readers@),
        ensures
            res.wf(),
            res.config == config,
            res.index == loader.index,
            res.writer == loader.writer,
            res.readers == readers,
    {
        Bitcask { config, index: loader.index, writer: loader.writer, readers }
    }

    /// Whether this is the store that is opened over these files at the time
    /// `now`: the last of them is active, and a store without files starts with
    /// an empty one.
    pub open spec fn opened_over(&self, images: Seq<FileImageView>, now: u64) -> bool {
        let all = files_to_open(images);
        let state = opening(images).0;
        &&& self.wf()
        &&& self.index@ == state.keydir
        &&& self.writer == (WriterState {
            current_file_id: all.last().id,
            offset: state.offset as u64,
            flushed_offset: 0,
            last_ts_flushed: now,
            stale_bytes_count: state.stale as u64,
        })
        &&& self.readers@ == ids_of(all)
    }

    /// Opens a store over its data files and their hint files, which stand in
    /// the order of their ids. Beside the store comes what is left to be done
    /// with each file.
    pub fn open(config: Config, images: Vec<FileImage>, now: u64) -> (res: Result<
        (Bitcask, Vec<FileReplay>),
        KvsError,
    >)
        requires
            ascending(ids_of(file_views(images@))),
            total_len(file_views(images@)) <= u64::MAX,
        ensures
            match opening(file_views(images@)).1 {
                Ok(outcomes) => {
                    &&& res is Ok
                    &&& res->Ok_0.0.config == config
                    &&& res->Ok_0.0.opened_over(file_views(images@), now)
                    &&& res->Ok_0.1@ == outcomes
                },
                Err(e) => res is Err && res->Err_0@ == e,
            },
    {
        let ghost given = file_views(images@);
        let mut files = images;
        if files.len() == 0 {
            files.push(FileImage { id: 1, data: Vec::new(), hint: None });
        }
        assert(file_views(files@) =~= files_to_open(given));
        assert(total_len(file_views(files@)) <= u64::MAX) by {
            if given.len() == 0 {
                assert(total_len(file_views(files@).skip(1)) == 0);
                assert(file_views(files@)[0].data.len() == 0);
            }
        }
        let mut readers: Vec<u64> = Vec::new();
        let mut i: usize = 0;
        while i < files.len()
            invariant
                i <= files@.len(),
                readers@ == ids_of(file_views(files@)).take(i as int),
            decreases files@.len() - i,
        {
            readers.push(files[i].id);
            i += 1;
            assert(readers@ =~= ids_of(file_views(files@)).take(i as int));
        }
        assert(readers@ =~= ids_of(file_views(files@)));
        let active: u64 = readers[readers.len() - 1];
        let mut loader = Loader::new(active, now);
        match loader.replay(&files) {
            Ok(outcomes) => Ok((Bitcask::loaded(config, loader, readers), outcomes)),
            Err(e) => Err(e),
        }
    }

    /// Where the record of a key stands.
    pub fn lookup(&self, key: &str) -> (entry: Option<IndexValue>)
        ensures
            entry == map_get(self.index@, encode_utf8(key@)),
    {
        match self.index.get(key.as_bytes()) {
            Some(value) => Some(*value),
            None => None,
        }
    }

    /// The value in the bytes of an entry.
    pub fn read_value(buf: Vec<u8>) -> (res: Result<Option<String>, KvsError>)
        ensures
            match value_in(buf@) {
                Ok(Some(s)) => res is Ok && res->Ok_0 is Some && res->Ok_0->0@ == s,
                Ok(None) => res is Ok && res->Ok_0 is None,
                Err(e) => res is Err && res->Err_0@ == e,
            },
    {
        let value_len: usize = match Command::deserialize(buf.as_slice()) {
            Ok((command, _)) => match command.get_value() {
                Some(value) => value.len(),
                None => return Ok(None),
            },
            Err(e) => return Err(e),
        };
        proof {
            crate::command::law_encode_decode(buf@);
            crate::command::law_encode_len(decode(buf@)->Ok_0.0);
        }
        let start: usize = buf.len() - value_len;
        let tail = vstd::slice::slice_to_vec(
            vstd::slice::slice_subrange(buf.as_slice(), start, buf.len()),
        );
        assert(tail@ =~= buf@.skip(start as int));
        match string_from_utf8(tail) {
            Ok(s) => Ok(Some(s)),
            Err(bytes) => Err(KvsError::Utf8(bytes)),
        }
    }

    /// The record that gives a key a value.
    pub fn set_command<'a>(key: &'a str, value: &'a str, ts: u64) -> (command: Command<'a>)
        ensures
            command@ == (CommandView::Put { ts, key: encode_utf8(key@), value: encode_utf8(value@) }),
    {
        Command::Put { ts, key: key.as_bytes(), value: value.as_bytes() }
    }

    /// Tests whether there is something to remove.
    pub fn check_remove(&self, key: &str) -> (res: Result<(), KvsError>)
        ensures
            self.index@.contains_key(encode_utf8(key@)) ==> res is Ok,
            !self.index@.contains_key(encode_utf8(key@)) ==> res is Err && res->Err_0@
                == KvsErrorView::KeyNotFound,
    {
        let key = key.as_bytes();
        if self.index.read_access(key).contains_key(key) {
            Ok(())
        } else {
            Err(KvsError::KeyNotFound)
        }
    }

    /// The record that removes a key.
    pub fn remove_command<'a>(key: &'a str, ts: u64) -> (command: Command<'a>)
        ensures
            command@ == (CommandView::Rm { ts, key: encode_utf8(key@) }),
    {
        Command::Rm { ts, key: key.as_bytes() }
    }

    /// Whether the counters can take in a record of `len` bytes.
    pub open spec fn has_room(&self, key: Seq<u8>, len: int) -> bool {
        &&& self.writer.offset + len <= u64::MAX
        &&& self.writer.stale_bytes_count + superseded(self.index@, key) <= u64::MAX
    }

    /// What a record of `len` bytes that is entered makes of the store.
    pub open spec fn appended(&self, after: &Bitcask, c: CommandView, len: usize) -> bool {
        &&& after.config == self.config
        &&& after.readers == self.readers
        &&& after.index@ == keydir_after(
            self.index@,
            c,
            self.writer.current_file_id,
            self.writer.offset,
            len,
        )
        &&& after.writer == (WriterState {
            offset: (self.writer.offset + len) as u64,
            stale_bytes_count: (self.writer.stale_bytes_count + superseded(
                self.index@,
                c.key(),
            )) as u64,
            ..self.writer
        })
    }

    /// Tests whether the counters can take in a record of `len` bytes.
    pub fn can_append(&self, command: &Command, len: usize) -> (fits: bool)
        ensures
            fits == self.has_room(command@.key(), len as int),
    {
        let stale: usize = match self.index.get(command.get_key()) {
            Some(value) => value.len,
            None => 0,
        };
        self.writer.offset <= u64::MAX - len as u64 && self.writer.stale_bytes_count <= u64::MAX
            - stale as u64
    }

    /// Enters a record of `len` bytes that was appended to the active file.
    pub fn append(&mut self, command: &Command, len: usize)
        requires
            old(self).wf(),
            old(self).has_room(command@.key(), len as int),
        ensures
            final(self).wf(),
            old(self).appended(final(self), command@, len),
    {
        let previous = match command {
            Command::Put { ts, key, .. } => {
                let value = IndexValue {
                    file_id: self.writer.current_file_id,
                    ts: *ts,
                    offset: self.writer.offset,
                    len,
                };
                self.index.insert(key, value)
            },
            Command::Rm { key, .. } => self.index.remove(key),
        };
        if let Some(value) = previous {
            self.writer.stale_bytes_count += value.len as u64;
        }
        self.writer.offset += len as u64;
    }

    /// Whether there is enough garbage for a merge.
    pub fn compaction_trigger(&self) -> (due: bool)
        ensures
            due == (self.writer.stale_bytes_count >= self.config.compaction_threshold),
    {
        self.writer.stale_bytes_count >= self.config.compaction_threshold
    }

    /// Whether the log has to be forced to disk behind a write at the time
    /// `now`, in milliseconds.
    pub open spec fn sync_due(&self, now: u64) -> bool {
        match self.config.durability_policy {
            DurabilityPolicy::SyncOnEveryPut => true,
            DurabilityPolicy::SyncOnInterval => now - self.writer.last_ts_flushed
                >= self.config.flush_threshold_millis,
            DurabilityPolicy::OsDecides => false,
        }
    }

    /// Decides whether the log has to be forced to disk behind a write.
    pub fn handle_policy(&self, now: u64) -> (due: bool)
        requires
            self.config.durability_policy == DurabilityPolicy::SyncOnInterval ==> now
                >= self.writer.last_ts_flushed,
        ensures
            due == self.sync_due(now),
    {
        match self.config.durability_policy {
            DurabilityPolicy::SyncOnEveryPut => true,
            DurabilityPolicy::SyncOnInterval => now - self.writer.last_ts_flushed
                >= self.config.flush_threshold_millis,
            DurabilityPolicy::OsDecides => false,
        }
    }

    /// What forcing the log to disk makes of the store.
    pub open spec fn forced(&self, after: &Bitcask) -> bool {
        &&& after.config == self.config
        &&& after.index == self.index
        &&& after.readers == self.readers
        &&& after.writer == (WriterState { flushed_offset: self.writer.offset, ..self.writer })
    }

    /// Enters that the log was forced to disk.
    pub fn sync(&mut self)
        ensures
            old(self).forced(final(self)),
    {
        self.writer.flushed_offset = self.writer.offset;
    }

    /// What it makes of the store that the policy had the log forced to disk at
    /// the time `now`.
    pub open spec fn policy_forced(&self, after: &Bitcask, now: u64) -> bool {
        &&& after.config == self.config
        &&& after.index == self.index
        &&& after.readers == self.readers
        &&& after.writer == (WriterState {
            flushed_offset: self.writer.offset,
            last_ts_flushed: if self.config.durability_policy == DurabilityPolicy::SyncOnInterval {
                now
            } else {
                self.writer.last_ts_flushed
            },
            ..self.writer
        })
    }

    /// Enters that the policy had the log forced to disk at the time `now`.
    pub fn policy_synced(&mut self, now: u64)
        ensures
            old(self).policy_forced(final(self), now),
    {
        self.sync();
        match self.config.durability_policy {
            DurabilityPolicy::SyncOnInterval => {
                self.writer.last_ts_flushed = now;
            },
            _ => {},
        }
    }

    /// The file that the log has to move on to, where the active file is full.
    pub fn rotate_if_full(&self) -> (next: Option<u64>)
        requires
            self.writer.offset >= self.config.file_size_threshold ==> self.writer.current_file_id
                < u64::MAX,
        ensures
            next == (if self.writer.offset >= self.config.file_size_threshold {
                Some((self.writer.current_file_id + 1) as u64)
            } else {
                None
            }),
    {
        if self.writer.offset < self.config.file_size_threshold {
            return None;
        }
        Some(self.writer.current_file_id + 1)
    }

    /// What moving on to another file makes of the store.
    pub open spec fn rotated(&self, after: &Bitcask, next_file_id: u64, now: u64) -> bool {
        &&& after.config == self.config
        &&& after.index == self.index
        &&& after.writer == (WriterState {
            current_file_id: next_file_id,
            offset: 0,
            flushed_offset: 0,
            last_ts_flushed: now,
            stale_bytes_count: self.writer.stale_bytes_count,
        })
        &&& forall|x: u64| #[trigger]
            after.readers@.contains(x) <==> (self.readers@.contains(x) || x == next_file_id)
    }

    /// Enters that the log was forced to disk and moved on to another, empty
    /// file at the time `now`.
    pub fn rotate_to(&mut self, next_file_id: u64, now: u64)
        requires
            old(self).wf(),
        ensures
            final(self).wf(),
            old(self).rotated(final(self), next_file_id, now),
    {
        self.sync();
        self.writer.current_file_id = next_file_id;
        self.writer.flushed_offset = 0;
        self.writer.offset = 0;
        self.writer.last_ts_flushed = now;
        insert_id(&mut self.readers, next_file_id);
    }
}

} // verus!
