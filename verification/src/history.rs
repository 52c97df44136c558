//! What a store holds behind any sequence of calls: sets, removals, rotations,
//! merges with writes in between, whether they are completed or given up, and
//! reopens, after a crash or not.
use vstd::prelude::*;
use vstd::utf8::encode_utf8;

use crate::bitcask::{files_to_open, opening, value_in, Bitcask};
use crate::command::CommandView;
use crate::error::KvsErrorView;
use crate::index::map_get;
use crate::loader::FileImageView;
use crate::log_model::{
    all_cmds, among, append_to_last, contents_after, store_contents, valid_files, LogFile,
};
use crate::merge::{Merge, MergeAction};
use crate::merge_model::{
    law_merge_finish, law_merge_remove, merge_append, merge_copy, merge_finish, merge_open,
    merge_remove, merge_rotate, merge_start, MergeModel,
};
use crate::recovery::shows_store;
use crate::store_model::{
    law_appended, law_file_copied, law_get, law_merge_done, law_merge_under_way, law_opened,
    law_output_finished, law_output_opened, law_rotated, law_rotation_during_merge,
    law_source_removed, law_tracks_represents, law_write_during_merge, represents, sources_are,
    tracks,
};
use crate::writer::WriterState;

verus! {

/// A store and its files.
pub enum World {
    /// No merge is under way.
    Idle { core: Bitcask, files: Seq<LogFile> },
    /// A merge is under way.
    Merging { core: Bitcask, merge: Merge, m: MergeModel },
}

impl World {
    /// The bookkeeping of the store.
    pub open spec fn state(self) -> Bitcask {
        match self {
            World::Idle { core, .. } => core,
            World::Merging { core, .. } => core,
        }
    }

    /// The files of the store.
    pub open spec fn files(self) -> Seq<LogFile> {
        match self {
            World::Idle { files, .. } => files,
            World::Merging { m, .. } => m.files(),
        }
    }

    /// The contents of the store.
    pub open spec fn contents(self) -> Map<Seq<u8>, Seq<u8>> {
        store_contents(self.files())
    }

    /// The bookkeeping and the files are in step.
    pub open spec fn sound(self) -> bool {
        match self {
            World::Idle { core, files } => represents(&core, files),
            World::Merging { core, merge, m } => tracks(&core, &merge, m) && merge.total()
                <= usize::MAX,
        }
    }
}

/// What can happen to a store.
pub enum Event {
    /// A key is given a value.
    Assign { key: Seq<char>, value: Seq<char>, ts: u64 },
    /// A key that is there is removed.
    Remove { key: Seq<char>, ts: u64 },
    /// The active file moves on.
    Rotate { id: u64, now: u64 },
    /// The log is forced to disk.
    Sync,
    /// A merge starts.
    StartMerge { now: u64 },
    /// The action of the merge that is due is done.
    MergeStep,
    /// The merge ends.
    EndMerge,
    /// The merge is given up, perhaps half-way: the action that is due has
    /// failed. Another merge may be started later.
    GiveUp,
    /// The store is opened again over the files that are there, perhaps after a
    /// crash in the middle of a write or of a merge.
    Reopen { images: Seq<FileImageView>, tail: Seq<u8>, now: u64 },
}

/// The record that an event writes.
pub open spec fn written(event: Event) -> Option<CommandView> {
    match event {
        Event::Assign { key, value, ts } => Some(
            CommandView::Put { ts, key: encode_utf8(key), value: encode_utf8(value) },
        ),
        Event::Remove { key, ts } => Some(CommandView::Rm { ts, key: encode_utf8(key) }),
        _ => None,
    }
}

/// What forcing the log to disk leaves alone.
pub open spec fn synced(before: Bitcask, after: Bitcask) -> bool {
    &&& after.config == before.config
    &&& after.index == before.index
    &&& after.readers == before.readers
    &&& after.writer == (WriterState {
        flushed_offset: after.writer.flushed_offset,
        last_ts_flushed: after.writer.last_ts_flushed,
        ..before.writer
    })
}

/// A write, during a merge or not: the record is appended to the active file
/// and entered.
pub open spec fn write_step(w: World, c: CommandView, v: World) -> bool {
    &&& w.state().appended(&v.state(), c, c.encode().len() as usize)
    &&& match (w, v) {
        (World::Idle { files, .. }, World::Idle { files: after, .. }) => {
            &&& after == append_to_last(files, c)
            &&& valid_files(after)
        },
        (World::Merging { merge, m, .. }, World::Merging { merge: same, m: after, .. }) => {
            &&& same == merge
            &&& after == merge_append(m, c)
            &&& valid_files(after.all_files())
        },
        _ => false,
    }
}

/// A rotation, during a merge or not: an empty file is created.
pub open spec fn rotate_step(w: World, id: u64, now: u64, v: World) -> bool {
    &&& w.state().rotated(&v.state(), id, now)
    &&& match (w, v) {
        (World::Idle { files, .. }, World::Idle { files: after, .. }) => {
            &&& id > files.last().id
            &&& after == files.push(LogFile { id, cmds: Seq::empty() })
        },
        (World::Merging { merge, m, .. }, World::Merging { merge: same, m: after, .. }) => {
            &&& id > m.tail.last().id
            &&& same == merge
            &&& after == merge_rotate(m, id)
        },
        _ => false,
    }
}

/// The start of a merge: it is planned over the sealed files, and the active
/// file moves on above the ids that it reserves.
pub open spec fn start_step(w: World, now: u64, v: World) -> bool {
    match (w, v) {
        (World::Idle { core, files }, World::Merging { core: after, merge, m }) => {
            &&& merge.wf()
            &&& merge.total() <= usize::MAX
            &&& merge.planned(&core, merge.sources@)
            &&& sources_are(merge.sources@, files.drop_last())
            &&& core.rotated(&after, merge.next_active, now)
            &&& m == merge_start(
                files.drop_last(),
                seq![files.last()],
                after.index@,
                merge.next_active,
            )
        },
        _ => false,
    }
}

/// An action of a merge: it is performed on the files and entered.
pub open spec fn merge_step(w: World, v: World) -> bool {
    match (w, v) {
        (
            World::Merging { core, merge, m },
            World::Merging { core: core_after, merge: after, m: m_after },
        ) => {
            &&& after.wf()
            &&& match merge.action() {
                MergeAction::OpenOutput { .. } => {
                    &&& core_after == core
                    &&& merge.opened(&after)
                    &&& m_after == merge_open(m, after.last_output_id)
                },
                MergeAction::CopyFrom { .. } => {
                    &&& core_after == core
                    &&& merge.copied(
                        &after,
                        merge.copy_of(core.index@, m.sources[m.next].bytes()).0,
                    )
                    &&& m_after == merge_copy(m)
                },
                MergeAction::FinishOutput { .. } => {
                    &&& merge.finished_into(&core, &after, &core_after)
                    &&& m_after == merge_finish(m)
                },
                MergeAction::RemoveSource { .. } => {
                    &&& merge.removed_from(&core, &after, &core_after)
                    &&& m_after == merge_remove(m)
                },
                MergeAction::Complete => false,
            }
        },
        _ => false,
    }
}

/// The end of a merge.
pub open spec fn end_step(w: World, v: World) -> bool {
    match (w, v) {
        (World::Merging { core, merge, m }, World::Idle { core: after, files }) => {
            &&& merge.action() is Complete
            &&& merge.completed(&core, &after)
            &&& files == m.files()
        },
        _ => false,
    }
}

/// A merge that is given up: what it has finished stays, and the output that
/// was being written does not count among the files.
pub open spec fn give_up_step(w: World, v: World) -> bool {
    match w {
        World::Merging { core, m, .. } => v == (World::Idle { core, files: m.files() }),
        _ => false,
    }
}

/// Whether these are the files on disk. In the middle of a merge that may be
/// the files behind the action that is due, performed but not yet entered: an
/// output that has its own name, or a sealed file that is gone.
pub open spec fn on_disk(w: World, files: Seq<LogFile>) -> bool {
    ||| files == w.files()
    ||| match w {
        World::Merging { merge, m, .. } => {
            ||| merge.action() is FinishOutput && files == merge_finish(m).files()
            ||| merge.action() is RemoveSource && files == merge_remove(m).files()
        },
        _ => false,
    }
}

/// The store is opened again over the files on disk.
pub open spec fn reopen_step(
    w: World,
    images: Seq<FileImageView>,
    tail: Seq<u8>,
    now: u64,
    v: World,
) -> bool {
    match v {
        World::Idle { core, files } => {
            &&& on_disk(w, files)
            &&& shows_store(images, files, tail)
            &&& core.opened_over(images, now)
        },
        _ => false,
    }
}

/// What an event makes of a store and its files, going by what the operations
/// of the store promise.
pub open spec fn step(w: World, event: Event, v: World) -> bool {
    &&& v.state().wf()
    &&& match event {
        Event::Assign { .. } => write_step(w, written(event)->0, v),
        Event::Remove { key, .. } => {
            &&& w.state().index@.contains_key(encode_utf8(key))
            &&& write_step(w, written(event)->0, v)
        },
        Event::Rotate { id, now } => rotate_step(w, id, now, v),
        Event::Sync => {
            &&& synced(w.state(), v.state())
            &&& match (w, v) {
                (World::Idle { files, .. }, World::Idle { files: same, .. }) => same == files,
                (
                    World::Merging { merge, m, .. },
                    World::Merging { merge: same, m: same_m, .. },
                ) => same == merge && same_m == m,
                _ => false,
            }
        },
        Event::StartMerge { now } => start_step(w, now, v),
        Event::MergeStep => merge_step(w, v),
        Event::EndMerge => end_step(w, v),
        Event::GiveUp => give_up_step(w, v),
        Event::Reopen { images, tail, now } => reopen_step(w, images, tail, now, v),
    }
}

/// What an event makes of the values that users have set.
pub open spec fn values_after(values: Map<Seq<char>, Seq<char>>, event: Event) -> Map<
    Seq<char>,
    Seq<char>,
> {
    match event {
        Event::Assign { key, value, .. } => values.insert(key, value),
        Event::Remove { key, .. } => values.remove(key),
        _ => values,
    }
}

/// What events, one behind the other, make of the values that users have set.
pub open spec fn all_values(start: Map<Seq<char>, Seq<char>>, events: Seq<Event>) -> Map<
    Seq<char>,
    Seq<char>,
>
    decreases events.len(),
{
    if events.len() == 0 {
        start
    } else {
        values_after(all_values(start, events.drop_last()), events.last())
    }
}

/// Whether contents are exactly these values.
pub open spec fn holds(
    contents: Map<Seq<u8>, Seq<u8>>,
    values: Map<Seq<char>, Seq<char>>,
) -> bool {
    forall|key: Seq<char>|
        {
            &&& #[trigger] values.contains_key(key) <==> contents.contains_key(encode_utf8(key))
            &&& values.contains_key(key) ==> contents[encode_utf8(key)] == encode_utf8(values[key])
        }
}

/// What a read of a key returns: what is at the place where the key stands, in
/// the file with the id that is named there.
pub open spec fn read(core: Bitcask, files: Seq<LogFile>, key: Seq<u8>) -> Result<
    Option<Seq<char>>,
    KvsErrorView,
> {
    match map_get(core.index@, key) {
        None => Ok(None),
        Some(entry) => {
            let f = choose|f: int| 0 <= f < files.len() && (#[trigger] files[f]).id == entry.file_id;
            value_in(files[f].bytes().subrange(entry.offset as int, entry.offset + entry.len))
        },
    }
}

proof fn lemma_text_key(a: Seq<char>, b: Seq<char>)
    requires
        encode_utf8(a) == encode_utf8(b),
    ensures
        a == b,
{
    vstd::utf8::encode_utf8_decode_utf8(a);
    vstd::utf8::encode_utf8_decode_utf8(b);
}

/// Every event keeps the bookkeeping and the files in step, and changes the
/// contents exactly as the record says that it writes.
pub proof fn law_step(w: World, event: Event, v: World)
    requires
        w.sound(),
        step(w, event, v),
    ensures
        v.sound(),
        v.contents() == (match written(event) {
            Some(c) => contents_after(w.contents(), c),
            None => w.contents(),
        }),
{
    match event {
        Event::Assign { .. } => lemma_write_step(w, written(event)->0, v),
        Event::Remove { .. } => lemma_write_step(w, written(event)->0, v),
        Event::Rotate { id, now } => match (w, v) {
            (World::Idle { core, files }, World::Idle { core: after, .. }) => {
                law_rotated(core, after, files, id, now);
            },
            (World::Merging { core, merge, m }, World::Merging { core: after, .. }) => {
                law_rotation_during_merge(core, after, merge, m, id, now);
            },
            _ => {},
        },
        Event::Sync => {},
        Event::StartMerge { now } => {
            if let (World::Idle { core, files }, World::Merging { core: after, merge, .. }) = (w, v) {
                law_merge_under_way(core, after, merge, files, now);
            }
        },
        Event::MergeStep => lemma_merge_step(w, v),
        Event::EndMerge => {
            if let World::Merging { core, merge, m } = w {
                law_merge_done(core, merge, m);
            }
        },
        Event::GiveUp => {
            if let World::Merging { core, merge, m } = w {
                law_tracks_represents(core, merge, m);
            }
        },
        Event::Reopen { images, tail, now } => {
            lemma_on_disk(w, v.files());
            law_opened(images, v.files(), tail, v.state(), now);
        },
    }
}

/// Whatever of a merge has been performed but not entered, the files on disk
/// amount to the contents of the store.
proof fn lemma_on_disk(w: World, files: Seq<LogFile>)
    requires
        w.sound(),
        on_disk(w, files),
    ensures
        store_contents(files) == w.contents(),
{
    if let World::Merging { merge, m, .. } = w {
        if merge.action() is FinishOutput {
            law_merge_finish(m);
        } else if merge.action() is RemoveSource {
            law_merge_remove(m);
        }
    }
}

proof fn lemma_write_step(w: World, c: CommandView, v: World)
    requires
        w.sound(),
        v.state().wf(),
        write_step(w, c, v),
    ensures
        v.sound(),
        v.contents() == contents_after(w.contents(), c),
{
    match (w, v) {
        (World::Idle { core, files }, World::Idle { core: after, .. }) => {
            law_appended(core, after, files, c);
        },
        (World::Merging { core, merge, m }, World::Merging { core: after, .. }) => {
            law_write_during_merge(core, after, merge, m, c);
        },
        _ => {},
    }
}

proof fn lemma_merge_step(w: World, v: World)
    requires
        w.sound(),
        v.state().wf(),
        merge_step(w, v),
    ensures
        v.sound(),
        v.contents() == w.contents(),
{
    if let (
        World::Merging { core, merge, m },
        World::Merging { core: core_after, merge: after, .. },
    ) = (w, v) {
        match merge.action() {
            MergeAction::OpenOutput { .. } => law_output_opened(core, merge, after, m),
            MergeAction::CopyFrom { .. } => law_file_copied(core, merge, after, m),
            MergeAction::FinishOutput { .. } => law_output_finished(
                core,
                core_after,
                merge,
                after,
                m,
            ),
            MergeAction::RemoveSource { .. } => law_source_removed(
                core,
                core_after,
                merge,
                after,
                m,
            ),
            MergeAction::Complete => {},
        }
    }
}

/// Whether a history is a sequence of stores, each made of the one before it
/// by an event, that starts with a store that holds these values.
pub open spec fn history(
    worlds: Seq<World>,
    events: Seq<Event>,
    start: Map<Seq<char>, Seq<char>>,
) -> bool {
    &&& worlds.len() == events.len() + 1
    &&& worlds[0].sound()
    &&& holds(worlds[0].contents(), start)
    &&& forall|i: int|
        0 <= i < events.len() ==> step(worlds[i], #[trigger] events[i], worlds[i + 1])
}

/// Behind any sequence of sets, removals, rotations, syncs, merges, completed or
/// given up, and reopens a store holds exactly the values that were set last and not removed since:
/// no write is lost, no removed key is back, no older value is seen.
pub proof fn law_history(
    worlds: Seq<World>,
    events: Seq<Event>,
    start: Map<Seq<char>, Seq<char>>,
)
    requires
        history(worlds, events, start),
    ensures
        worlds.last().sound(),
        holds(worlds.last().contents(), all_values(start, events)),
    decreases events.len(),
{
    if events.len() > 0 {
        let n = events.len() - 1;
        let (before, past) = (worlds.drop_last(), events.drop_last());
        assert forall|i: int| 0 <= i < past.len() implies step(
            before[i],
            #[trigger] past[i],
            before[i + 1],
        ) by {
            assert(past[i] == events[i]);
        }
        law_history(before, past, start);
        let (w, v, event) = (worlds[n], worlds[n + 1], events[n]);
        assert(before.last() == w);
        assert(step(w, event, v));
        law_step(w, event, v);
        let (old_values, values) = (all_values(start, past), all_values(start, events));
        assert forall|key: Seq<char>|
            {
                &&& #[trigger] values.contains_key(key) <==> v.contents().contains_key(
                    encode_utf8(key),
                )
                &&& values.contains_key(key) ==> v.contents()[encode_utf8(key)] == encode_utf8(
                    values[key],
                )
            } by {
            assert(old_values.contains_key(key) <==> w.contents().contains_key(encode_utf8(key)));
            match event {
                Event::Assign { key: k, .. } => {
                    if encode_utf8(k) == encode_utf8(key) {
                        lemma_text_key(k, key);
                    }
                },
                Event::Remove { key: k, .. } => {
                    if encode_utf8(k) == encode_utf8(key) {
                        lemma_text_key(k, key);
                    }
                },
                _ => {},
            }
        }
    }
}

/// A read returns the value that was set last, through any sequence of events,
/// before anything is forced to disk, in the middle of a merge and behind a
/// reopen; and it returns nothing of a key that was never set or was removed.
/// The file that it reads is open.
pub proof fn law_read_your_writes(
    worlds: Seq<World>,
    events: Seq<Event>,
    start: Map<Seq<char>, Seq<char>>,
    key: Seq<char>,
)
    requires
        history(worlds, events, start),
    ensures
        ({
            let w = worlds.last();
            let values = all_values(start, events);
            &&& read(w.state(), w.files(), encode_utf8(key)) == Ok::<
                Option<Seq<char>>,
                KvsErrorView,
            >(
                if values.contains_key(key) {
                    Some(values[key])
                } else {
                    None
                },
            )
            &&& values.contains_key(key) ==> w.state().readers@.contains(
                w.state().index@[encode_utf8(key)].file_id,
            )
        }),
{
    law_history(worlds, events, start);
    let w = worlds.last();
    let values = all_values(start, events);
    let k = encode_utf8(key);
    if let World::Merging { core, merge, m } = w {
        law_tracks_represents(core, merge, m);
    }
    let (core, files) = (w.state(), w.files());
    assert(represents(&core, files));
    assert(values.contains_key(key) <==> w.contents().contains_key(k));
    law_get(core, files, k, -1);
    if let Some(entry) = map_get(core.index@, k) {
        assert(among(files, files.len() as int, entry.file_id));
        let f = choose|f: int| 0 <= f < files.len() && (#[trigger] files[f]).id == entry.file_id;
        law_get(core, files, k, f);
        vstd::utf8::encode_utf8_valid_utf8(values[key]);
        vstd::utf8::encode_utf8_decode_utf8(values[key]);
    }
}

/// Opening a store again, behind any sequence of events and at any point of a
/// merge, succeeds over whatever files are on disk; and every read from the
/// store that comes of it returns the value that was set last: no write is
/// lost, no removed key is back, no older value is seen. A last write that was
/// cut short is as if it had not been started.
pub proof fn law_open_again(
    worlds: Seq<World>,
    events: Seq<Event>,
    start: Map<Seq<char>, Seq<char>>,
    files: Seq<LogFile>,
    images: Seq<FileImageView>,
    tail: Seq<u8>,
    core: Bitcask,
    now: u64,
    key: Seq<char>,
)
    requires
        history(worlds, events, start),
        on_disk(worlds.last(), files),
        shows_store(images, files, tail),
    ensures
        opening(images).1 is Ok,
        core.opened_over(images, now) ==> read(core, files, encode_utf8(key)) == Ok::<
            Option<Seq<char>>,
            KvsErrorView,
        >(
            if all_values(start, events).contains_key(key) {
                Some(all_values(start, events)[key])
            } else {
                None
            },
        ),
{
    law_opened(images, files, tail, core, now);
    if core.opened_over(images, now) {
        let event = Event::Reopen { images, tail, now };
        let (longer, more) = (worlds.push(World::Idle { core, files }), events.push(event));
        assert forall|i: int| 0 <= i < more.len() implies step(
            longer[i],
            #[trigger] more[i],
            longer[i + 1],
        ) by {
            if i < events.len() {
                assert(more[i] == events[i]);
            }
        }
        law_read_your_writes(longer, more, start, key);
        assert(more.drop_last() =~= events);
    }
}

/// A store that is opened where there are no files holds nothing.
pub proof fn law_first_open(core: Bitcask, now: u64)
    requires
        core.opened_over(Seq::empty(), now),
    ensures
        ({
            let files = seq![LogFile { id: 1, cmds: Seq::empty() }];
            let w = World::Idle { core, files };
            w.sound() && holds(w.contents(), Map::empty())
        }),
{
    let images = seq![FileImageView { id: 1, data: Seq::<u8>::empty(), hint: None }];
    let first = LogFile { id: 1, cmds: Seq::<CommandView>::empty() };
    let files = seq![first];
    assert(files_to_open(Seq::empty()) =~= files_to_open(images));
    assert(first.storable());
    assert(images.last().data =~= files.last().bytes() + Seq::<u8>::empty());
    law_opened(images, files, Seq::empty(), core, now);
    assert(files.drop_last() =~= Seq::<LogFile>::empty());
    assert(all_cmds(files.drop_last()) =~= Seq::<CommandView>::empty());
    assert(all_cmds(files) =~= Seq::<CommandView>::empty());
    assert(store_contents(files) == Map::<Seq<u8>, Seq<u8>>::empty());
}

} // verus!
