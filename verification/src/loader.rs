//! Rebuilds the index of a store from its files.
//!
//! Files are replayed in the order of their ids, each by its hint file where
//! it has a sound one, else record by record: nothing of an unsound hint file
//! is used. Only the active file may end in a torn record: it is cut off there.
use vstd::prelude::*;

use crate::command::{decode, law_stated_len, stated_body_len, Command, CommandView, HEADER_LEN};
use crate::error::{KvsError, KvsErrorView};
use crate::bytes_util::push_bytes;
use crate::index::{Index, Slot};
use crate::index_value::{decode_hint, IndexValue};
use crate::record_reader::{RecordRead, RecordReader, RecordReaderView};
use crate::writer::WriterState;

verus! {

/// The contents of a data file, and of its hint file where there is one.
pub struct FileImage {
    pub id: u64,
    pub data: Vec<u8>,
    pub hint: Option<Vec<u8>>,
}

/// The view of a [`FileImage`].
pub struct FileImageView {
    pub id: u64,
    pub data: Seq<u8>,
    pub hint: Option<Seq<u8>>,
}

impl View for FileImage {
    type V = FileImageView;

    open spec fn view(&self) -> FileImageView {
        FileImageView {
            id: self.id,
            data: self.data@,
            hint: match self.hint {
                Some(hint) => Some(hint@),
                None => None,
            },
        }
    }
}

/// What is left to be done with the files of a data file behind its replay:
/// whether its hint file is unsound and has to go, and where the data file has
/// to be cut off.
#[derive(Debug, Clone, Copy, PartialEq, Eq, Structural)]
pub struct FileReplay {
    pub drop_hint: bool,
    pub truncate_to: Option<u64>,
}

/// How the replay of a file begins.
#[derive(Debug, Clone, Copy, PartialEq, Eq, Structural)]
pub enum FileStart {
    /// Its hint file has stood for it: the file is done.
    Loaded,
    /// Its data has to be replayed. Its hint file goes first, where there is one
    /// that is not sound.
    NeedsData { drop_hint: bool },
}

/// What a replay has found out so far.
pub struct ReplayState {
    /// For each key, where its latest record stands.
    pub keydir: Map<Seq<u8>, IndexValue>,
    /// The bytes of the log that no longer matter.
    pub stale: int,
    /// The length of the file that was replayed last.
    pub offset: int,
}

impl ReplayState {
    /// The state behind a record of `len` bytes at `offset` of a file.
    pub open spec fn apply(self, file_id: u64, offset: int, len: int, c: CommandView) -> ReplayState {
        match c {
            CommandView::Put { ts, key, .. } => ReplayState {
                keydir: self.keydir.insert(
                    key,
                    IndexValue { file_id, ts, offset: offset as u64, len: len as usize },
                ),
                stale: self.stale,
                offset: self.offset + len,
            },
            CommandView::Rm { key, .. } => ReplayState {
                keydir: self.keydir.remove(key),
                stale: self.stale + len,
                offset: self.offset + len,
            },
        }
    }
}

/// How the records of a file end.
pub enum ScanEnd {
    /// With a whole record.
    Clean,
    /// With a record that is not whole, and starts here.
    Torn(int),
    /// With a record that does not decode.
    Bad(KvsErrorView),
}

/// The length of the record that starts at `at`, going by its header.
pub open spec fn record_size(data: Seq<u8>, at: int) -> int {
    HEADER_LEN + stated_body_len(data.skip(at))
}

/// Whether a whole record starts at `at`.
pub open spec fn whole_record(data: Seq<u8>, at: int) -> bool {
    &&& at + HEADER_LEN <= data.len()
    &&& at + record_size(data, at) <= data.len()
}

/// The record that starts at `at`.
pub open spec fn record_at(data: Seq<u8>, at: int) -> Seq<u8> {
    data.skip(at).take(record_size(data, at))
}

/// Replays the records of a data file from `at` on.
pub open spec fn replay_data(file_id: u64, data: Seq<u8>, at: int, state: ReplayState) -> (
    ReplayState,
    ScanEnd,
)
    decreases data.len() - at,
{
    if at >= data.len() {
        (state, ScanEnd::Clean)
    } else if !whole_record(data, at) {
        (state, ScanEnd::Torn(at))
    } else {
        match decode(record_at(data, at)) {
            Err(e) => (state, ScanEnd::Bad(e)),
            Ok((c, _)) => replay_data(
                file_id,
                data,
                at + record_size(data, at),
                state.apply(file_id, at, record_size(data, at), c),
            ),
        }
    }
}

/// Replays the records of a hint file from `at` on, up to the first that is
/// not sound, and says whether there is none.
pub open spec fn replay_hint(
    file_id: u64,
    data: Seq<u8>,
    at: int,
    keydir: Map<Seq<u8>, IndexValue>,
) -> (Map<Seq<u8>, IndexValue>, bool)
    decreases data.len() - at,
{
    if at >= data.len() {
        (keydir, true)
    } else if !whole_record(data, at) {
        (keydir, false)
    } else {
        match decode_hint(record_at(data, at), file_id) {
            Err(_) => (keydir, false),
            Ok((key, value, _)) => replay_hint(
                file_id,
                data,
                at + record_size(data, at),
                keydir.insert(key, value),
            ),
        }
    }
}

/// Replays the data of a file: only the active file may end in a torn record.
pub open spec fn replay_log(file_id: u64, data: Seq<u8>, active: u64, state: ReplayState) -> (
    ReplayState,
    Result<Option<u64>, KvsErrorView>,
) {
    let (replayed, end) = replay_data(file_id, data, 0, ReplayState { offset: 0, ..state });
    match end {
        ScanEnd::Clean => (replayed, Ok(None)),
        ScanEnd::Bad(e) => (replayed, Err(e)),
        ScanEnd::Torn(at) => if file_id == active {
            (ReplayState { offset: at, ..replayed }, Ok(Some(at as u64)))
        } else {
            (replayed, Err(KvsErrorView::Corruption))
        },
    }
}

/// Replays one file. The hint file of the active file is not looked at, and a
/// hint file that is not sound has no bearing on the index: it has to go, and
/// the data file is replayed in its place.
pub open spec fn replay_file(file: FileImageView, active: u64, state: ReplayState) -> (
    ReplayState,
    Result<FileReplay, KvsErrorView>,
) {
    let hinted = file.id != active && file.hint is Some;
    let (keydir, sound) = replay_hint(file.id, file.hint->0, 0, state.keydir);
    if hinted && sound {
        (
            ReplayState { keydir, ..state },
            Ok(FileReplay { drop_hint: false, truncate_to: None }),
        )
    } else {
        let (replayed, res) = replay_log(file.id, file.data, active, state);
        (
            replayed,
            match res {
                Ok(truncate_to) => Ok(FileReplay { drop_hint: hinted, truncate_to }),
                Err(e) => Err(e),
            },
        )
    }
}

/// Replays files one behind the other, up to the first that fails or is torn.
pub open spec fn replay_files(files: Seq<FileImageView>, active: u64, state: ReplayState) -> (
    ReplayState,
    Result<Seq<FileReplay>, KvsErrorView>,
)
    decreases files.len(),
{
    if files.len() == 0 {
        (state, Ok(Seq::empty()))
    } else {
        let (after, first) = replay_file(files[0], active, state);
        match first {
            Err(e) => (after, Err(e)),
            Ok(outcome) => if outcome.truncate_to is Some {
                (after, Ok(seq![outcome]))
            } else {
                let (last, rest) = replay_files(files.skip(1), active, after);
                (
                    last,
                    match rest {
                        Err(e) => Err(e),
                        Ok(outcomes) => Ok(seq![outcome] + outcomes),
                    },
                )
            },
        }
    }
}

/// The views of file images.
pub open spec fn file_views(files: Seq<FileImage>) -> Seq<FileImageView> {
    files.map_values(|file: FileImage| file@)
}

/// The bytes of file images, all together.
pub open spec fn total_len(files: Seq<FileImageView>) -> int
    decreases files.len(),
{
    if files.len() == 0 {
        0
    } else {
        files[0].data.len() + total_len(files.skip(1))
    }
}

/// An index with entries put in, one behind the other.
pub open spec fn insert_all(
    keydir: Map<Seq<u8>, IndexValue>,
    entries: Seq<Slot>,
) -> Map<Seq<u8>, IndexValue>
    decreases entries.len(),
{
    if entries.len() == 0 {
        keydir
    } else {
        insert_all(keydir, entries.drop_last()).insert(
            entries.last().key@,
            entries.last().value,
        )
    }
}

/// Reads a whole hint file, where it is sound.
fn read_hint(file_id: u64, hint: &[u8]) -> (res: Option<Vec<Slot>>)
    ensures
        match res {
            Some(entries) => forall|keydir: Map<Seq<u8>, IndexValue>| #[trigger]
                replay_hint(file_id, hint@, 0, keydir) == (insert_all(keydir, entries@), true),
            None => forall|keydir: Map<Seq<u8>, IndexValue>|
                !(#[trigger] replay_hint(file_id, hint@, 0, keydir)).1,
        },
{
    let mut entries: Vec<Slot> = Vec::new();
    let mut reader = RecordReader::new(hint, hint.len() as u64);
    let ghost mut at: int = 0;
    assert(hint@.skip(0) =~= hint@);
    loop
        invariant
            0 <= at <= hint@.len() <= u64::MAX,
            reader@ == (RecordReaderView {
                rest: hint@.skip(at),
                position: at as u64,
                file_len: hint@.len() as u64,
            }),
            forall|keydir: Map<Seq<u8>, IndexValue>| #[trigger]
                replay_hint(file_id, hint@, 0, keydir) == replay_hint(
                    file_id,
                    hint@,
                    at,
                    insert_all(keydir, entries@),
                ),
        decreases hint@.len() - at,
    {
        match reader.next_record() {
            Ok(RecordRead::Record { bytes, .. }) => {
                assert(bytes@ == record_at(hint@, at));
                match IndexValue::deserialize(bytes.as_slice(), file_id) {
                    Ok((key, value, _)) => {
                        let mut owned: Vec<u8> = Vec::new();
                        push_bytes(&mut owned, key);
                        assert(owned@ =~= key@);
                        let ghost before = entries@;
                        entries.push(Slot { key: owned, value });
                        assert(entries@.drop_last() =~= before);
                    },
                    Err(_) => return None,
                }
                proof {
                    assert(hint@.skip(at).skip(bytes@.len() as int) =~= hint@.skip(
                        at + bytes@.len(),
                    ));
                    at = at + bytes@.len();
                }
            },
            Ok(RecordRead::CleanEof) => return Some(entries),
            _ => return None,
        }
    }
}

/// Rebuilds the index of a store from its files.
pub struct Loader {
    pub index: Index,
    pub writer: WriterState,
}

impl View for Loader {
    type V = ReplayState;

    open spec fn view(&self) -> ReplayState {
        ReplayState {
            keydir: self.index@,
            stale: self.writer.stale_bytes_count as int,
            offset: self.writer.offset as int,
        }
    }
}

impl Loader {
    /// What a replay leaves alone.
    pub open spec fn same_file(&self, other: &Loader) -> bool {
        &&& self.writer.current_file_id == other.writer.current_file_id
        &&& self.writer.flushed_offset == other.writer.flushed_offset
        &&& self.writer.last_ts_flushed == other.writer.last_ts_flushed
    }

    /// A loader for a store whose active file is `current_file_id`.
    pub fn new(current_file_id: u64, now: u64) -> (res: Loader)
        ensures
            res@ == (ReplayState { keydir: Map::empty(), stale: 0, offset: 0 }),
            res.writer.current_file_id == current_file_id,
            res.writer.flushed_offset == 0,
            res.writer.last_ts_flushed == now,
    {
        Loader { index: Index::empty(), writer: WriterState::new(current_file_id, now) }
    }

    /// Whether the hint file of a data file may stand for it: that of the active
    /// file may not, for writing goes on where its records end.
    pub fn wants_hint(&self, file_id: u64) -> (wanted: bool)
        ensures
            wanted == (file_id != self.writer.current_file_id),
    {
        file_id != self.writer.current_file_id
    }

    /// Replays the hint file of a data file, and says whether it was sound. One
    /// that is not changes nothing.
    pub fn replay_hint(&mut self, file_id: u64, hint: &[u8]) -> (sound: bool)
        ensures
            sound == replay_hint(file_id, hint@, 0, old(self)@.keydir).1,
            sound ==> final(self).writer == old(self).writer && final(self)@.keydir == replay_hint(
                file_id,
                hint@,
                0,
                old(self)@.keydir,
            ).0,
            !sound ==> *final(self) == *old(self),
    {
        let entries: Vec<Slot> = match read_hint(file_id, hint) {
            Some(entries) => entries,
            None => {
                assert(!replay_hint(file_id, hint@, 0, self@.keydir).1);
                return false;
            },
        };
        let ghost keydir = self@.keydir;
        let mut i: usize = 0;
        while i < entries.len()
            invariant
                i <= entries@.len(),
                self.writer == old(self).writer,
                keydir == old(self)@.keydir,
                self@.keydir == insert_all(keydir, entries@.take(i as int)),
            decreases entries@.len() - i,
        {
            proof {
                assert(entries@.take(i + 1).drop_last() =~= entries@.take(i as int));
            }
            self.index.insert(entries[i].key.as_slice(), entries[i].value);
            i += 1;
        }
        assert(entries@.take(i as int) =~= entries@);
        assert(replay_hint(file_id, hint@, 0, keydir) == (insert_all(keydir, entries@), true));
        true
    }

    /// Begins with a file: by its hint file, where it has a sound one that may
    /// stand for it. Else nothing has changed, and its data has to be replayed.
    pub fn begin_file(&mut self, file_id: u64, hint: Option<&[u8]>) -> (start: FileStart)
        ensures
            ({
                let hinted = file_id != old(self).writer.current_file_id && hint is Some;
                let (keydir, sound) = replay_hint(file_id, hint->0@, 0, old(self)@.keydir);
                if hinted && sound {
                    &&& start == FileStart::Loaded
                    &&& final(self).writer == old(self).writer
                    &&& final(self)@.keydir == keydir
                } else {
                    &&& start == (FileStart::NeedsData { drop_hint: hinted })
                    &&& *final(self) == *old(self)
                }
            }),
    {
        if self.wants_hint(file_id) {
            if let Some(hint) = hint {
                if self.replay_hint(file_id, hint) {
                    return FileStart::Loaded;
                }
                return FileStart::NeedsData { drop_hint: true };
            }
        }
        FileStart::NeedsData { drop_hint: false }
    }

    /// Replays the records of a data file. Where the file ends in a torn
    /// record, the result says where that record starts.
    pub fn replay_data(&mut self, file_id: u64, data: &[u8]) -> (res: Result<Option<u64>, KvsError>)
        requires
            old(self)@.stale + data@.len() <= u64::MAX,
        ensures
            final(self).same_file(old(self)),
            final(self)@.stale <= old(self)@.stale + data@.len(),
            ({
                let (state, expected) = replay_log(
                    file_id,
                    data@,
                    old(self).writer.current_file_id,
                    old(self)@,
                );
                &&& final(self)@ == state
                &&& match expected {
                    Ok(truncate_to) => res == Ok::<Option<u64>, KvsError>(truncate_to),
                    Err(e) => res is Err && res->Err_0@ == e,
                }
            }),
    {
        let size: usize = data.len();
        self.writer.offset = 0;
        let mut reader = RecordReader::new(data, size as u64);
        let ghost start = self@;
        let ghost mut at: int = 0;
        assert(data@.skip(0) =~= data@);
        loop
            invariant
                self.same_file(old(self)),
                size == data@.len(),
                0 <= at <= size <= u64::MAX,
                self@.offset == at,
                self@.stale <= old(self)@.stale + at,
                old(self)@.stale + data@.len() <= u64::MAX,
                reader@ == (RecordReaderView {
                    rest: data@.skip(at),
                    position: at as u64,
                    file_len: size as u64,
                }),
                start == (ReplayState { offset: 0, ..old(self)@ }),
                replay_data(file_id, data@, 0, start) == replay_data(file_id, data@, at, self@),
            decreases size - at,
        {
            match reader.next_record() {
                Ok(RecordRead::Record { position, bytes }) => {
                    assert(bytes@ == record_at(data@, at));
                    match Command::deserialize(bytes.as_slice()) {
                        Ok((Command::Put { ts, key, .. }, _)) => {
                            let value = IndexValue {
                                file_id,
                                ts,
                                offset: position,
                                len: bytes.len(),
                            };
                            self.index.insert(key, value);
                        },
                        Ok((Command::Rm { key, .. }, _)) => {
                            self.writer.stale_bytes_count += bytes.len() as u64;
                            self.index.remove(key);
                        },
                        Err(e) => return Err(e),
                    }
                    self.writer.offset += bytes.len() as u64;
                    proof {
                        assert(data@.skip(at).skip(bytes@.len() as int) =~= data@.skip(
                            at + bytes@.len(),
                        ));
                        at = at + bytes@.len();
                    }
                },
                Ok(RecordRead::CleanEof) => return Ok(None),
                Ok(RecordRead::TornTail { position }) => {
                    return if file_id == self.writer.current_file_id {
                        self.writer.offset = position;
                        Ok(Some(position))
                    } else {
                        Err(KvsError::Corruption)
                    };
                },
                Err(e) => return Err(e),
            }
        }
    }

    /// Replays one file.
    pub fn replay_file(&mut self, file: &FileImage) -> (res: Result<FileReplay, KvsError>)
        requires
            old(self)@.stale + file@.data.len() <= u64::MAX,
        ensures
            final(self).same_file(old(self)),
            final(self)@.stale <= old(self)@.stale + file@.data.len(),
            ({
                let (state, expected) = replay_file(
                    file@,
                    old(self).writer.current_file_id,
                    old(self)@,
                );
                &&& final(self)@ == state
                &&& match expected {
                    Ok(outcome) => res == Ok::<FileReplay, KvsError>(outcome),
                    Err(e) => res is Err && res->Err_0@ == e,
                }
            }),
    {
        let hint: Option<&[u8]> = match &file.hint {
            Some(hint) => Some(hint.as_slice()),
            None => None,
        };
        let drop_hint: bool = match self.begin_file(file.id, hint) {
            FileStart::Loaded => return Ok(FileReplay { drop_hint: false, truncate_to: None }),
            FileStart::NeedsData { drop_hint } => drop_hint,
        };
        match self.replay_data(file.id, file.data.as_slice()) {
            Ok(truncate_to) => Ok(FileReplay { drop_hint, truncate_to }),
            Err(e) => Err(e),
        }
    }

    /// Replays the files of the store, which stand in the order of their ids.
    /// The result says, file by file, what is left to be done.
    pub fn replay(&mut self, files: &Vec<FileImage>) -> (res: Result<Vec<FileReplay>, KvsError>)
        requires
            old(self)@.stale + total_len(file_views(files@)) <= u64::MAX,
        ensures
            final(self).same_file(old(self)),
            ({
                let (state, expected) = replay_files(
                    file_views(files@),
                    old(self).writer.current_file_id,
                    old(self)@,
                );
                &&& final(self)@ == state
                &&& match expected {
                    Ok(outcomes) => res is Ok && res->Ok_0@ == outcomes,
                    Err(e) => res is Err && res->Err_0@ == e,
                }
            }),
    {
        let ghost all = file_views(files@);
        let ghost active = self.writer.current_file_id;
        let mut done: Vec<FileReplay> = Vec::new();
        let mut i: usize = 0;
        assert(all.skip(0) =~= all);
        while i < files.len()
            invariant
                i <= files@.len(),
                all == file_views(files@),
                active == old(self).writer.current_file_id,
                self.same_file(old(self)),
                self@.stale + total_len(all.skip(i as int)) <= u64::MAX,
                continues(all, active, old(self)@, done@, all.skip(i as int), self@),
            decreases files@.len() - i,
        {
            let ghost before = self@;
            let ghost rest = all.skip(i as int);
            proof {
                lemma_total_len_nat(rest.skip(1));
                assert(rest[0] == files@[i as int]@);
                assert(rest.skip(1) =~= all.skip(i + 1));
            }
            match self.replay_file(&files[i]) {
                Err(e) => return Err(e),
                Ok(outcome) => {
                    let ghost so_far = done@;
                    done.push(outcome);
                    proof {
                        assert(done@ =~= so_far + seq![outcome]);
                        if outcome.truncate_to is None {
                            let tail = replay_files(rest.skip(1), active, self@).1;
                            if tail is Ok {
                                assert(so_far + (seq![outcome] + tail->Ok_0) =~= done@
                                    + tail->Ok_0);
                            }
                        }
                    }
                    if outcome.truncate_to.is_some() {
                        return Ok(done);
                    }
                },
            }
            i += 1;
        }
        assert(done@ + Seq::<FileReplay>::empty() =~= done@);
        Ok(done)
    }
}

/// Whether a replay of `all` from `start` has done the files in front of
/// `rest`, with these outcomes, and stands at `now`.
spec fn continues(
    all: Seq<FileImageView>,
    active: u64,
    start: ReplayState,
    done: Seq<FileReplay>,
    rest: Seq<FileImageView>,
    now: ReplayState,
) -> bool {
    let (last, outcomes) = replay_files(rest, active, now);
    replay_files(all, active, start) == (
        last,
        match outcomes {
            Err(e) => Err::<Seq<FileReplay>, KvsErrorView>(e),
            Ok(more) => Ok(done + more),
        },
    )
}

proof fn lemma_total_len_nat(files: Seq<FileImageView>)
    ensures
        total_len(files) >= 0,
    decreases files.len(),
{
    if files.len() > 0 {
        lemma_total_len_nat(files.skip(1));
    }
}

/// Where a record is whole: its header is there, and as many bytes behind it
/// as the header says, least significant byte first.
pub proof fn law_whole_record(data: Seq<u8>, at: int)
    requires
        0 <= at <= data.len() <= usize::MAX,
    ensures
        whole_record(data, at) <==> {
            &&& at + 8 <= data.len()
            &&& at + 8 + data[at + 4] + 0x100 * data[at + 5] + 0x1_0000 * data[at + 6] + 0x100_0000
                * data[at + 7] <= data.len()
        },
        whole_record(data, at) ==> record_at(data, at) == data.subrange(
            at,
            at + 8 + data[at + 4] + 0x100 * data[at + 5] + 0x1_0000 * data[at + 6] + 0x100_0000
                * data[at + 7],
        ),
{
    if at + 8 <= data.len() {
        let rest = data.skip(at);
        law_stated_len(rest);
        if whole_record(data, at) {
            assert(record_at(data, at) =~= data.subrange(at, at + record_size(data, at)));
        }
    }
}

} // verus!
