//! Merging: copies the records that still matter out of the sealed files into
//! fresh ones, so that the sealed files can go.
//!
//! A merge is a sequence of actions that the caller performs on the files,
//! each entered here once it is done:
//!
//! - the outputs get ids from a range that is reserved below the active file,
//!   and are written under a temporary name; when one is full it is finished:
//!   forced to disk, given its own name, and only then do the keys move over;
//! - a key that was written again during the merge keeps its newer record, and
//!   its copy becomes garbage for a later merge;
//! - the old files go last: after a crash there are either outputs under their
//!   temporary names, which go at the next open, or finished outputs whose ids
//!   are below the active file, so that newer writes still win on replay;
//! - the stale bytes that were counted when the merge started are subtracted
//!   at its end: writes during the merge may have added new ones.
use vstd::prelude::*;

use crate::bitcask::{insert_id, remove_id, Bitcask};
use crate::bytes_util::push_bytes;
use crate::command::{decode, Command, CommandView};
use crate::error::{KvsError, KvsErrorView};
use crate::index::Index;
use crate::index_value::{encode_hint, IndexValue};
use crate::loader::{record_at, record_size, whole_record, ScanEnd};
use crate::record_reader::{RecordRead, RecordReader, RecordReaderView};
use crate::writer::WriterState;

verus! {

/// A sealed file that goes into a merge.
#[derive(Debug, Clone, Copy, PartialEq, Eq, Structural)]
pub struct Source {
    pub id: u64,
    pub len: u64,
}

/// A file that a merge writes, and how much it has written.
#[derive(Debug, Clone, Copy, PartialEq, Eq, Structural)]
pub struct MergeOutput {
    pub id: u64,
    pub written: u64,
}

impl MergeOutput {
    /// Where the next record of the output goes.
    pub open spec fn entry(self, ts: u64, len: usize) -> IndexValue {
        IndexValue { file_id: self.id, ts, offset: self.written, len }
    }

    /// Enters a record of `len` bytes, and gives the place where it stands.
    pub fn append(&mut self, ts: u64, len: usize) -> (value: IndexValue)
        requires
            old(self).written + len <= u64::MAX,
        ensures
            value == old(self).entry(ts, len),
            *final(self) == (MergeOutput {
                id: old(self).id,
                written: (old(self).written + len) as u64,
            }),
    {
        let value = IndexValue { file_id: self.id, ts, offset: self.written, len };
        self.written += len as u64;
        value
    }

    /// Whether the output has reached the size of a data file.
    pub fn is_full(&self, threshold: u64) -> (full: bool)
        ensures
            full == (self.written >= threshold),
    {
        self.written >= threshold
    }
}

/// A key whose record was copied: where it stood, and where the copy stands.
#[derive(Debug)]
pub struct PendingUpdate {
    pub key: Vec<u8>,
    pub previous_value: IndexValue,
    pub new: IndexValue,
}

/// The view of a [`PendingUpdate`].
pub struct PendingView {
    pub key: Seq<u8>,
    pub previous_value: IndexValue,
    pub new: IndexValue,
}

impl View for PendingUpdate {
    type V = PendingView;

    open spec fn view(&self) -> PendingView {
        PendingView { key: self.key@, previous_value: self.previous_value, new: self.new }
    }
}

/// The views of pending updates.
pub open spec fn pending_views(pending: Seq<PendingUpdate>) -> Seq<PendingView> {
    pending.map_values(|p: PendingUpdate| p@)
}

/// Whether the keydir holds exactly this place for a key.
pub open spec fn sits_at(
    keydir: Map<Seq<u8>, IndexValue>,
    key: Seq<u8>,
    file_id: u64,
    offset: u64,
) -> bool {
    keydir.contains_key(key) && keydir[key].file_id == file_id && keydir[key].offset == offset
}

/// Where the keys stand once the pending updates are applied in turn: a key
/// moves to its copy only if it still stands where it was copied from.
pub open spec fn apply_pending(
    keydir: Map<Seq<u8>, IndexValue>,
    pending: Seq<PendingView>,
) -> Map<Seq<u8>, IndexValue>
    decreases pending.len(),
{
    if pending.len() == 0 {
        keydir
    } else {
        let before = apply_pending(keydir, pending.drop_last());
        let p = pending.last();
        if sits_at(before, p.key, p.previous_value.file_id, p.previous_value.offset) {
            before.insert(p.key, p.new)
        } else {
            before
        }
    }
}

/// What was copied out of a file so far.
pub struct CopyState {
    /// The output, and how much it holds.
    pub output: MergeOutput,
    /// The bytes for the data file of the output.
    pub records: Seq<u8>,
    /// The bytes for the hint file of the output.
    pub hints: Seq<u8>,
    /// The keys that were copied.
    pub pending: Seq<PendingView>,
}

impl CopyState {
    /// The state behind the record `bytes` of the file `file_id` at `offset`:
    /// it is copied if it is what its key stands at.
    pub open spec fn copy(
        self,
        keydir: Map<Seq<u8>, IndexValue>,
        file_id: u64,
        offset: u64,
        bytes: Seq<u8>,
        c: CommandView,
    ) -> CopyState {
        if c is Put && sits_at(keydir, c.key(), file_id, offset) {
            let len = bytes.len() as usize;
            let new = self.output.entry(c.ts(), len);
            CopyState {
                output: MergeOutput {
                    id: self.output.id,
                    written: (self.output.written + len) as u64,
                },
                records: self.records + bytes,
                hints: self.hints + encode_hint(c.key(), new),
                pending: self.pending.push(
                    PendingView {
                        key: c.key(),
                        previous_value: IndexValue { file_id, ts: c.ts(), offset, len },
                        new,
                    },
                ),
            }
        } else {
            self
        }
    }
}

/// Copies the records of a file from `at` on.
pub open spec fn copy_live(
    file_id: u64,
    data: Seq<u8>,
    at: int,
    keydir: Map<Seq<u8>, IndexValue>,
    state: CopyState,
) -> (CopyState, ScanEnd)
    decreases data.len() - at,
{
    if at >= data.len() {
        (state, ScanEnd::Clean)
    } else if !whole_record(data, at) {
        (state, ScanEnd::Torn(at))
    } else {
        match decode(record_at(data, at)) {
            Err(e) => (state, ScanEnd::Bad(e)),
            Ok((c, _)) => copy_live(
                file_id,
                data,
                at + record_size(data, at),
                keydir,
                state.copy(keydir, file_id, at as u64, record_at(data, at), c),
            ),
        }
    }
}

/// What has to be appended to the data file and the hint file of the output.
pub struct Copied {
    pub records: Vec<u8>,
    pub hints: Vec<u8>,
}

/// What the caller has to do next.
#[derive(Debug, Clone, Copy, PartialEq, Eq, Structural)]
pub enum MergeAction {
    /// Create the data file of an output, under its temporary name, and its
    /// hint file.
    OpenOutput { id: u64 },
    /// Read a sealed file, and append what is copied out of it to the output.
    CopyFrom { id: u64, len: u64 },
    /// Force the output to disk and give it its own name.
    FinishOutput { id: u64 },
    /// Remove a sealed file, and its hint file where there is one.
    RemoveSource { id: u64 },
    /// Nothing is left: settle the stale bytes.
    Complete,
}

/// A merge that is under way.
pub struct Merge {
    /// The sealed files, in the order of their ids.
    pub sources: Vec<Source>,
    /// How many of them were copied from.
    pub next: usize,
    /// How many of them were removed.
    pub removed: usize,
    /// The output that is being written.
    pub output: Option<MergeOutput>,
    /// The id of the latest output; the id of the file that was active when
    /// the merge started, as long as there is none.
    pub last_output_id: u64,
    /// The keys that were copied to the output.
    pub pending: Vec<PendingUpdate>,
    /// From this size on an output is full.
    pub file_size_threshold: u64,
    /// The stale bytes that were counted when the merge started.
    pub init_stale_bytes: u64,
    /// The id of the file that was active when the merge started.
    pub first_compacted_file_id: u64,
    /// The id of the file that is active from then on.
    pub next_active: u64,
}

/// The bytes of sealed files, all together.
pub open spec fn source_bytes(sources: Seq<Source>) -> int
    decreases sources.len(),
{
    if sources.len() == 0 {
        0
    } else {
        source_bytes(sources.drop_last()) + sources.last().len
    }
}

/// How many ids a merge reserves for its outputs.
pub open spec fn reserve(total_bytes: int, threshold: u64) -> int {
    total_bytes / (threshold as int) + 2
}

impl Merge {
    /// The bytes of all sealed files.
    pub open spec fn total(&self) -> int {
        source_bytes(self.sources@)
    }

    /// How many outputs were finished.
    pub open spec fn finished(&self) -> int {
        self.last_output_id - self.first_compacted_file_id - if self.output is Some {
            1int
        } else {
            0int
        }
    }

    /// The bytes in the output that is being written.
    pub open spec fn in_output(&self) -> int {
        match self.output {
            Some(out) => out.written as int,
            None => 0,
        }
    }

    /// Finished outputs are full but for the last, so they and the output that
    /// is being written hold no more than what was copied from.
    pub open spec fn wf(&self) -> bool {
        &&& self.file_size_threshold > 0
        &&& self.next <= self.sources@.len()
        &&& self.removed <= self.sources@.len()
        &&& self.removed > 0 ==> self.next == self.sources@.len() && self.output is None
        &&& self.total() <= u64::MAX
        &&& self.next_active == self.first_compacted_file_id + reserve(
            self.total(),
            self.file_size_threshold,
        ) + 1
        &&& self.finished() >= 0
        &&& self.output is Some ==> self.output->0.id == self.last_output_id
        &&& self.in_output() <= source_bytes(self.sources@.take(self.next as int))
        &&& (self.next < self.sources@.len() || self.output is Some) ==> self.finished()
            * self.file_size_threshold + self.in_output() <= source_bytes(
            self.sources@.take(self.next as int),
        )
        &&& self.last_output_id < self.next_active
    }

    /// What the caller has to do next.
    pub open spec fn action(&self) -> MergeAction {
        match self.output {
            Some(out) => if out.written >= self.file_size_threshold || self.next
                >= self.sources@.len() {
                MergeAction::FinishOutput { id: out.id }
            } else {
                let source = self.sources@[self.next as int];
                MergeAction::CopyFrom { id: source.id, len: source.len }
            },
            None => if self.next < self.sources@.len() {
                MergeAction::OpenOutput { id: (self.last_output_id + 1) as u64 }
            } else if self.removed < self.sources@.len() {
                MergeAction::RemoveSource { id: self.sources@[self.removed as int].id }
            } else {
                MergeAction::Complete
            },
        }
    }
}

pub(crate) proof fn lemma_source_bytes_take(sources: Seq<Source>, n: int)
    requires
        0 <= n <= sources.len(),
    ensures
        0 <= source_bytes(sources.take(n)) <= source_bytes(sources),
        n < sources.len() ==> source_bytes(sources.take(n + 1)) == source_bytes(sources.take(n))
            + sources[n].len,
    decreases sources.len(),
{
    if n == sources.len() {
        assert(sources.take(n) =~= sources);
        if n > 0 {
            lemma_source_bytes_take(sources.drop_last(), n - 1);
            assert(sources.drop_last().take(n - 1) =~= sources.drop_last());
        }
    } else {
        lemma_source_bytes_take(sources.drop_last(), n);
        assert(sources.drop_last().take(n) =~= sources.take(n));
        assert(sources.take(n + 1).drop_last() =~= sources.take(n));
    }
}

/// The ids reserved for outputs suffice: with `finished` outputs that each
/// hold at least `threshold` of at most `total` bytes, one more output still
/// has an id below the next active file.
pub proof fn law_reserve_suffices(first: int, finished: int, threshold: u64, total: int)
    requires
        threshold > 0,
        0 <= finished,
        finished * threshold <= total,
    ensures
        first + finished + 1 < first + reserve(total, threshold) + 1,
{
    let t = threshold as int;
    assert(finished <= total / t) by (nonlinear_arith)
        requires
            t > 0,
            finished * t <= total,
    ;
}

impl Bitcask {
    /// The sealed files, where there is enough garbage for a merge.
    pub fn merge_sources(&self) -> (ids: Vec<u64>)
        ensures
            self.writer.stale_bytes_count < self.config.compaction_threshold ==> ids@.len() == 0,
            self.writer.stale_bytes_count >= self.config.compaction_threshold ==> ids@
                == self.readers@.filter(|id: u64| id != self.writer.current_file_id),
    {
        let mut ids: Vec<u64> = Vec::new();
        if self.writer.stale_bytes_count < self.config.compaction_threshold {
            return ids;
        }
        let ghost sealed = |id: u64| id != self.writer.current_file_id;
        let mut i: usize = 0;
        assert(self.readers@.take(0).filter(sealed) =~= Seq::<u64>::empty()) by {
            reveal(Seq::filter);
        }
        while i < self.readers.len()
            invariant
                i <= self.readers@.len(),
                sealed == |id: u64| id != self.writer.current_file_id,
                ids@ == self.readers@.take(i as int).filter(sealed),
            decreases self.readers@.len() - i,
        {
            let id: u64 = self.readers[i];
            proof {
                reveal(Seq::filter);
                assert(self.readers@.take(i + 1).drop_last() =~= self.readers@.take(i as int));
            }
            if id != self.writer.current_file_id {
                ids.push(id);
            }
            i += 1;
        }
        assert(self.readers@.take(i as int) =~= self.readers@);
        ids
    }
}

impl Merge {
    /// A merge of sealed files that is about to start. The active file has to
    /// move on to `next_active` first.
    pub fn new(bitcask: &Bitcask, sources: Vec<Source>) -> (merge: Merge)
        requires
            bitcask.config.file_size_threshold > 0,
            source_bytes(sources@) <= u64::MAX,
            bitcask.writer.current_file_id + reserve(
                source_bytes(sources@),
                bitcask.config.file_size_threshold,
            ) + 1 <= u64::MAX,
        ensures
            merge.wf(),
            merge.planned(bitcask, sources@),
    {
        let mut total_bytes: u64 = 0;
        let mut i: usize = 0;
        while i < sources.len()
            invariant
                i <= sources@.len(),
                total_bytes == source_bytes(sources@.take(i as int)),
                source_bytes(sources@) <= u64::MAX,
            decreases sources@.len() - i,
        {
            proof {
                lemma_source_bytes_take(sources@, i as int);
                lemma_source_bytes_take(sources@, i + 1);
            }
            total_bytes += sources[i].len;
            i += 1;
        }
        proof {
            assert(sources@.take(i as int) =~= sources@);
            assert(source_bytes(sources@.take(0)) == 0);
            law_reserve_suffices(
                bitcask.writer.current_file_id as int,
                0,
                bitcask.config.file_size_threshold,
                total_bytes as int,
            );
        }
        let reserve: u64 = total_bytes / bitcask.config.file_size_threshold + 2;
        Merge {
            sources,
            next: 0,
            removed: 0,
            output: None,
            last_output_id: bitcask.writer.current_file_id,
            pending: Vec::new(),
            file_size_threshold: bitcask.config.file_size_threshold,
            init_stale_bytes: bitcask.writer.stale_bytes_count,
            first_compacted_file_id: bitcask.writer.current_file_id,
            next_active: bitcask.writer.current_file_id + reserve + 1,
        }
    }

    /// What the caller has to do next.
    pub fn next_action(&self) -> (action: MergeAction)
        requires
            self.wf(),
        ensures
            action == self.action(),
    {
        match &self.output {
            Some(out) => {
                if out.is_full(self.file_size_threshold) || self.next >= self.sources.len() {
                    MergeAction::FinishOutput { id: out.id }
                } else {
                    let source = self.sources[self.next];
                    MergeAction::CopyFrom { id: source.id, len: source.len }
                }
            },
            None => {
                if self.next < self.sources.len() {
                    MergeAction::OpenOutput { id: self.last_output_id + 1 }
                } else if self.removed < self.sources.len() {
                    MergeAction::RemoveSource { id: self.sources[self.removed].id }
                } else {
                    MergeAction::Complete
                }
            },
        }
    }

    /// A merge of these files that has not done anything yet.
    pub open spec fn planned(&self, bitcask: &Bitcask, sources: Seq<Source>) -> bool {
        &&& self.sources@ == sources
        &&& self.next == 0
        &&& self.removed == 0
        &&& self.output is None
        &&& self.last_output_id == bitcask.writer.current_file_id
        &&& self.pending@.len() == 0
        &&& self.file_size_threshold == bitcask.config.file_size_threshold
        &&& self.init_stale_bytes == bitcask.writer.stale_bytes_count
        &&& self.first_compacted_file_id == bitcask.writer.current_file_id
    }

    /// What every step of a merge leaves alone.
    pub open spec fn same_plan(&self, other: &Merge) -> bool {
        &&& self.sources == other.sources
        &&& self.file_size_threshold == other.file_size_threshold
        &&& self.init_stale_bytes == other.init_stale_bytes
        &&& self.first_compacted_file_id == other.first_compacted_file_id
        &&& self.next_active == other.next_active
    }

    /// What opening an output makes of the merge.
    pub open spec fn opened(&self, after: &Merge) -> bool {
        &&& after.same_plan(self)
        &&& after.next == self.next
        &&& after.removed == self.removed
        &&& after.pending == self.pending
        &&& after.last_output_id == self.last_output_id + 1
        &&& after.output == Some(MergeOutput { id: after.last_output_id, written: 0 })
    }

    /// Enters that the files of an output were created.
    pub fn output_opened(&mut self)
        requires
            old(self).wf(),
            old(self).action() is OpenOutput,
        ensures
            final(self).wf(),
            old(self).opened(final(self)),
    {
        proof {
            lemma_source_bytes_take(self.sources@, self.next as int);
            law_reserve_suffices(
                self.first_compacted_file_id as int,
                self.finished(),
                self.file_size_threshold,
                self.total(),
            );
        }
        self.last_output_id += 1;
        self.output = Some(MergeOutput { id: self.last_output_id, written: 0 });
    }

    /// What is copied out of the next sealed file, which holds `data`.
    pub open spec fn copy_of(&self, keydir: Map<Seq<u8>, IndexValue>, data: Seq<u8>) -> (
        CopyState,
        ScanEnd,
    ) {
        copy_live(
            self.sources@[self.next as int].id,
            data,
            0,
            keydir,
            CopyState {
                output: self.output->0,
                records: Seq::empty(),
                hints: Seq::empty(),
                pending: pending_views(self.pending@),
            },
        )
    }

    /// What copying from the next sealed file makes of the merge.
    pub open spec fn copied(&self, after: &Merge, state: CopyState) -> bool {
        &&& after.same_plan(self)
        &&& after.next == self.next + 1
        &&& after.removed == self.removed
        &&& after.last_output_id == self.last_output_id
        &&& after.output == Some(state.output)
        &&& pending_views(after.pending@) == state.pending
    }

    /// Copies the records that still matter out of the next sealed file. What
    /// comes back has to be appended to the files of the output.
    pub fn copy_file(&mut self, index: &Index, data: &[u8]) -> (res: Result<Copied, KvsError>)
        requires
            old(self).wf(),
            old(self).action() is CopyFrom,
            data@.len() == old(self).action()->CopyFrom_len,
            data@.len() + 36 <= usize::MAX,
        ensures
            ({
                let (state, end) = old(self).copy_of(index@, data@);
                match end {
                    ScanEnd::Clean => {
                        &&& final(self).wf()
                        &&& old(self).copied(final(self), state)
                        &&& res is Ok
                        &&& res->Ok_0.records@ == state.records
                        &&& res->Ok_0.hints@ == state.hints
                    },
                    ScanEnd::Torn(_) => {
                        &&& res is Err
                        &&& res->Err_0@ == KvsErrorView::Corruption
                        &&& *final(self) == *old(self)
                    },
                    ScanEnd::Bad(e) => {
                        &&& res is Err
                        &&& res->Err_0@ == e
                        &&& *final(self) == *old(self)
                    },
                }
            }),
    {
        let count: usize = self.sources.len();
        let file_id: u64 = self.sources[self.next].id;
        let size: usize = data.len();
        let mut out = match self.output {
            Some(out) => out,
            None => MergeOutput { id: 0, written: 0 },
        };
        let mut records: Vec<u8> = Vec::new();
        let mut hints: Vec<u8> = Vec::new();
        let mut updates: Vec<PendingUpdate> = Vec::new();
        let mut reader = RecordReader::new(data, size as u64);
        let ghost start = CopyState {
            output: out,
            records: Seq::empty(),
            hints: Seq::empty(),
            pending: pending_views(self.pending@),
        };
        let ghost mut at: int = 0;
        proof {
            assert(data@.skip(0) =~= data@);
            lemma_source_bytes_take(self.sources@, self.next as int);
            lemma_source_bytes_take(self.sources@, self.next + 1);
            assert(records@ =~= Seq::<u8>::empty());
            assert(hints@ =~= Seq::<u8>::empty());
            assert(start.pending + pending_views(updates@) =~= start.pending);
        }
        loop
            invariant
                old(self).wf(),
                old(self).action() is CopyFrom,
                file_id == old(self).action()->CopyFrom_id,
                *self == *old(self),
                self.next < count,
                    size == data@.len(),
                size == self.sources@[self.next as int].len,
                size + 36 <= usize::MAX,
                source_bytes(self.sources@.take(self.next as int)) + size <= u64::MAX,
                0 <= at <= size,
                out.id == self.output->0.id,
                out.written <= self.output->0.written + at,
                reader@ == (RecordReaderView {
                    rest: data@.skip(at),
                    position: at as u64,
                    file_len: size as u64,
                }),
                start == (CopyState {
                    output: old(self).output->0,
                    records: Seq::empty(),
                    hints: Seq::empty(),
                    pending: pending_views(old(self).pending@),
                }),
                source_bytes(self.sources@.take(self.next + 1)) == source_bytes(
                    self.sources@.take(self.next as int),
                ) + size,
                copy_live(file_id, data@, 0, index@, start) == copy_live(
                    file_id,
                    data@,
                    at,
                    index@,
                    CopyState {
                        output: out,
                        records: records@,
                        hints: hints@,
                        pending: start.pending + pending_views(updates@),
                    },
                ),
            decreases size - at,
        {
            match reader.next_record() {
                Ok(RecordRead::Record { position, bytes }) => {
                    assert(bytes@ == record_at(data@, at));
                    match Command::deserialize(bytes.as_slice()) {
                        Ok((Command::Put { ts, key, .. }, _)) => {
                            let sits_in_index: bool = match index.get(key) {
                                Some(e) => e.file_id == file_id && e.offset == position,
                                None => false,
                            };
                            if sits_in_index {
                                proof {
                                    crate::command::law_encode_decode(bytes@);
                                    crate::command::law_encode_len(decode(bytes@)->Ok_0.0);
                                }
                                let len: usize = bytes.len();
                                let new = out.append(ts, len);
                                push_bytes(&mut records, bytes.as_slice());
                                push_bytes(&mut hints, new.serialize(key).as_slice());
                                let mut owned: Vec<u8> = Vec::new();
                                push_bytes(&mut owned, key);
                                assert(owned@ =~= key@);
                                let previous_value = IndexValue {
                                    file_id,
                                    ts,
                                    offset: position,
                                    len,
                                };
                                let ghost before = start.pending + pending_views(updates@);
                                let update = PendingUpdate { key: owned, previous_value, new };
                                updates.push(update);
                                assert(start.pending + pending_views(updates@) =~= before.push(
                                    update@,
                                ));
                            }
                        },
                        Ok((Command::Rm { .. }, _)) => {},
                        Err(e) => return Err(e),
                    }
                    proof {
                        assert(data@.skip(at).skip(bytes@.len() as int) =~= data@.skip(
                            at + bytes@.len(),
                        ));
                        at = at + bytes@.len();
                    }
                },
                Ok(RecordRead::CleanEof) => {
                    let ghost added = pending_views(updates@);
                    self.pending.append(&mut updates);
                    assert(pending_views(self.pending@) =~= start.pending + added);
                    self.output = Some(out);
                    self.next += 1;
                    return Ok(Copied { records, hints });
                },
                Ok(RecordRead::TornTail { .. }) => return Err(KvsError::Corruption),
                Err(e) => return Err(e),
            }
        }
    }

    /// What finishing an output makes of the merge and of the store.
    pub open spec fn finished_into(
        &self,
        bitcask: &Bitcask,
        after: &Merge,
        bitcask_after: &Bitcask,
    ) -> bool {
        &&& after.same_plan(self)
        &&& after.next == self.next
        &&& after.removed == self.removed
        &&& after.last_output_id == self.last_output_id
        &&& after.output is None
        &&& after.pending@.len() == 0
        &&& bitcask_after.config == bitcask.config
        &&& bitcask_after.writer == bitcask.writer
        &&& forall|x: u64| #[trigger]
            bitcask_after.readers@.contains(x) <==> (bitcask.readers@.contains(x) || x
                == self.output->0.id)
        &&& bitcask_after.index@ == apply_pending(bitcask.index@, pending_views(self.pending@))
    }

    /// Enters that the output was forced to disk under its own name: it can be
    /// read from now on, and the keys that still stand where they were copied
    /// from move over to it.
    pub fn finish_output(&mut self, bitcask: &mut Bitcask)
        requires
            old(self).wf(),
            old(bitcask).wf(),
            old(self).action() is FinishOutput,
        ensures
            final(self).wf(),
            final(bitcask).wf(),
            old(self).finished_into(old(bitcask), final(self), final(bitcask)),
    {
        if let Some(out) = self.output {
            insert_id(&mut bitcask.readers, out.id);
        }
        proof {
            lemma_source_bytes_take(self.sources@, self.next as int);
            let (finished, threshold) = (self.finished(), self.file_size_threshold as int);
            assert((finished + 1) * threshold == finished * threshold + threshold)
                by (nonlinear_arith);
        }
        self.output = None;
        let ghost pending = pending_views(self.pending@);
        let mut i: usize = 0;
        assert(pending.take(0) =~= Seq::<PendingView>::empty());
        while i < self.pending.len()
            invariant
                i <= self.pending@.len(),
                pending == pending_views(old(self).pending@),
                self.pending == old(self).pending,
                self.wf(),
                self.same_plan(old(self)),
                self.next == old(self).next,
                self.removed == old(self).removed,
                self.last_output_id == old(self).last_output_id,
                self.output is None,
                bitcask.wf(),
                bitcask.config == old(bitcask).config,
                bitcask.writer == old(bitcask).writer,
                forall|x: u64| #[trigger]
                    bitcask.readers@.contains(x) <==> (old(bitcask).readers@.contains(x) || x
                        == old(self).output->0.id),
                bitcask.index@ == apply_pending(old(bitcask).index@, pending.take(i as int)),
            decreases self.pending@.len() - i,
        {
            let update = &self.pending[i];
            let key = update.key.as_slice();
            let still_prev: bool = match bitcask.index.get(key) {
                Some(e) => e.file_id == update.previous_value.file_id && e.offset
                    == update.previous_value.offset,
                None => false,
            };
            proof {
                assert(pending.take(i + 1).drop_last() =~= pending.take(i as int));
                assert(pending.take(i + 1).last() == update@);
            }
            if still_prev {
                bitcask.index.insert(key, update.new);
            }
            i += 1;
        }
        assert(pending.take(i as int) =~= pending);
        self.pending = Vec::new();
    }

    /// What removing the next sealed file makes of the merge and of the store.
    pub open spec fn removed_from(
        &self,
        bitcask: &Bitcask,
        after: &Merge,
        bitcask_after: &Bitcask,
    ) -> bool {
        &&& after.same_plan(self)
        &&& after.next == self.next
        &&& after.removed == self.removed + 1
        &&& after.last_output_id == self.last_output_id
        &&& after.output is None
        &&& after.pending == self.pending
        &&& bitcask_after.config == bitcask.config
        &&& bitcask_after.index == bitcask.index
        &&& bitcask_after.writer == bitcask.writer
        &&& forall|x: u64| #[trigger]
            bitcask_after.readers@.contains(x) <==> (bitcask.readers@.contains(x) && x
                != self.sources@[self.removed as int].id)
    }

    /// Enters that a sealed file was removed: it cannot be read any more.
    pub fn source_removed(&mut self, bitcask: &mut Bitcask)
        requires
            old(self).wf(),
            old(bitcask).wf(),
            old(self).action() is RemoveSource,
        ensures
            final(self).wf(),
            final(bitcask).wf(),
            old(self).removed_from(old(bitcask), final(self), final(bitcask)),
    {
        remove_id(&mut bitcask.readers, self.sources[self.removed].id);
        self.removed += 1;
    }

    /// What the end of the merge makes of the store.
    pub open spec fn completed(&self, bitcask: &Bitcask, after: &Bitcask) -> bool {
        &&& after.config == bitcask.config
        &&& after.index == bitcask.index
        &&& after.readers == bitcask.readers
        &&& after.writer == (WriterState {
            stale_bytes_count: (bitcask.writer.stale_bytes_count - self.init_stale_bytes) as u64,
            ..bitcask.writer
        })
    }

    /// Settles the stale bytes at the end of a merge.
    pub fn complete(&self, bitcask: &mut Bitcask)
        requires
            self.wf(),
            self.action() is Complete,
            old(bitcask).writer.stale_bytes_count >= self.init_stale_bytes,
        ensures
            self.completed(old(bitcask), final(bitcask)),
    {
        bitcask.writer.stale_bytes_count -= self.init_stale_bytes;
    }
}

impl Merge {
    /// How much of the merge is left: a number that every step makes smaller.
    pub open spec fn left(&self) -> int {
        let sources = self.sources@.len();
        let uncopied = 4 * (sources - self.next);
        (sources - self.removed) + match self.output {
            None => uncopied,
            Some(out) => if out.written == 0 && self.next < sources {
                uncopied - 1
            } else {
                uncopied + 2
            },
        }
    }

    /// Whether a merge has done the action that was due.
    pub open spec fn did_action(
        &self,
        bitcask: &Bitcask,
        after: &Merge,
        bitcask_after: &Bitcask,
        state: CopyState,
    ) -> bool {
        match self.action() {
            MergeAction::OpenOutput { .. } => self.opened(after),
            MergeAction::CopyFrom { .. } => self.copied(after, state),
            MergeAction::FinishOutput { .. } => self.finished_into(bitcask, after, bitcask_after),
            MergeAction::RemoveSource { .. } => self.removed_from(bitcask, after, bitcask_after),
            MergeAction::Complete => false,
        }
    }
}

/// A merge comes to its end: every action leaves less to be done.
pub proof fn law_merge_ends(
    before: Merge,
    after: Merge,
    bitcask: Bitcask,
    bitcask_after: Bitcask,
    state: CopyState,
)
    requires
        before.wf(),
        after.wf(),
        before.did_action(&bitcask, &after, &bitcask_after, state),
    ensures
        0 <= after.left() < before.left(),
{
}

/// The sealed files go last: only when all were copied from and no output is
/// unfinished.
pub proof fn law_sources_go_last(merge: Merge)
    requires
        merge.wf(),
        merge.action() is RemoveSource,
    ensures
        merge.next == merge.sources@.len(),
        merge.output is None,
{
}

/// What is due when: an output that has reached the size of a data file is
/// finished before another sealed file is copied from, and one that has not
/// reached it is finished only when nothing is left to copy from. Files are
/// copied from and removed in their order, each with an output open, and none
/// is removed before all are copied from and all outputs are finished.
pub proof fn law_next_action(merge: &Merge, action: MergeAction)
    requires
        merge.wf(),
        call_ensures(Merge::next_action, (merge,), action),
    ensures
        action is FinishOutput <==> merge.output is Some && (merge.output->0.written
            >= merge.file_size_threshold || merge.next == merge.sources@.len()),
        action is FinishOutput ==> action->FinishOutput_id == merge.output->0.id,
        action is CopyFrom ==> {
            &&& merge.output is Some
            &&& merge.output->0.written < merge.file_size_threshold
            &&& merge.next < merge.sources@.len()
            &&& action->CopyFrom_id == merge.sources@[merge.next as int].id
            &&& action->CopyFrom_len == merge.sources@[merge.next as int].len
        },
        action is OpenOutput <==> merge.output is None && merge.next < merge.sources@.len(),
        action is OpenOutput ==> merge.last_output_id < action->OpenOutput_id < merge.next_active,
        action is RemoveSource ==> {
            &&& merge.output is None
            &&& merge.next == merge.sources@.len()
            &&& merge.removed < merge.sources@.len()
            &&& action->RemoveSource_id == merge.sources@[merge.removed as int].id
        },
        action is Complete <==> merge.output is None && merge.next == merge.sources@.len()
            && merge.removed == merge.sources@.len(),
{
    if action is OpenOutput {
        lemma_source_bytes_take(merge.sources@, merge.next as int);
        law_reserve_suffices(
            merge.first_compacted_file_id as int,
            merge.finished(),
            merge.file_size_threshold,
            merge.total(),
        );
    }
}

/// The bytes of sealed files are those of each of them, added up.
pub proof fn law_source_bytes(sources: Seq<Source>, source: Source)
    ensures
        source_bytes(Seq::empty()) == 0,
        source_bytes(sources.push(source)) == source_bytes(sources) + source.len,
{
    assert(sources.push(source).drop_last() =~= sources);
}

/// An output is full from the size of a data file on.
pub proof fn law_is_full(out: &MergeOutput, threshold: u64, full: bool)
    requires
        call_ensures(MergeOutput::is_full, (out, threshold), full),
    ensures
        full <==> threshold <= out.written,
{
}

} // verus!
