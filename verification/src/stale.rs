//! What the count of stale bytes says of the log.
use vstd::prelude::*;

use crate::bitcask::{keydir_after, Bitcask};
use crate::command::CommandView;
use crate::history::{history, law_first_open, law_history, step, written, Event, World};
use crate::index_value::IndexValue;
use crate::loader::{FileImageView, ReplayState};
use crate::log_model::{all_cmds, append_to_last, log_bytes, valid_files, LogFile};
use crate::recovery::{fold_cmds, fold_files, law_reopen, shows_store};

verus! {

/// Whether a record is a Put that a later record about the same key has
/// superseded.
pub open spec fn is_superseded(cmds: Seq<CommandView>, i: int) -> bool {
    cmds[i] is Put && exists|j: int|
        i < j < cmds.len() && (#[trigger] cmds[j]).key() == cmds[i].key()
}

/// The bytes of the superseded records among the first `n` of a log.
pub open spec fn superseded_among(cmds: Seq<CommandView>, n: int) -> int
    decreases n,
{
    if n <= 0 {
        0
    } else {
        superseded_among(cmds, n - 1) + if is_superseded(cmds, n - 1) {
            cmds[n - 1].encode().len() as int
        } else {
            0
        }
    }
}

/// The bytes of all superseded records of a log.
pub open spec fn superseded_bytes(cmds: Seq<CommandView>) -> int {
    superseded_among(cmds, cmds.len() as int)
}

/// The bytes of the removals of a log.
pub open spec fn removal_bytes(cmds: Seq<CommandView>) -> int
    decreases cmds.len(),
{
    if cmds.len() == 0 {
        0
    } else {
        removal_bytes(cmds.drop_last()) + if cmds.last() is Rm {
            cmds.last().encode().len() as int
        } else {
            0
        }
    }
}

/// The length of the last record about a key, if that is a Put.
spec fn last_put_len(cmds: Seq<CommandView>, key: Seq<u8>) -> int
    decreases cmds.len(),
{
    if cmds.len() == 0 {
        0
    } else if cmds.last().key() == key {
        if cmds.last() is Put {
            cmds.last().encode().len() as int
        } else {
            0
        }
    } else {
        last_put_len(cmds.drop_last(), key)
    }
}

/// The index holds for each key the length of its last record.
pub closed spec fn holds_lengths(
    keydir: Map<Seq<u8>, IndexValue>,
    cmds: Seq<CommandView>,
) -> bool {
    forall|key: Seq<u8>| #[trigger]
        last_put_len(cmds, key) == (if keydir.contains_key(key) {
            keydir[key].len as int
        } else {
            0
        })
}

/// Where the last record about a key is.
proof fn lemma_last(cmds: Seq<CommandView>, key: Seq<u8>) -> (l: int)
    ensures
        -1 <= l < cmds.len(),
        l >= 0 ==> cmds[l].key() == key,
        forall|j: int| l < j < cmds.len() ==> (#[trigger] cmds[j]).key() != key,
        last_put_len(cmds, key) == (if l >= 0 && cmds[l] is Put {
            cmds[l].encode().len() as int
        } else {
            0
        }),
    decreases cmds.len(),
{
    if cmds.len() == 0 {
        -1
    } else if cmds.last().key() == key {
        cmds.len() - 1
    } else {
        let front = cmds.drop_last();
        let l = lemma_last(front, key);
        assert forall|j: int| l < j < cmds.len() implies (#[trigger] cmds[j]).key() != key by {
            if j < front.len() {
                assert(front[j].key() != key);
            }
        }
        l
    }
}

proof fn lemma_push_among(cmds: Seq<CommandView>, c: CommandView, l: int, n: int)
    requires
        0 <= n <= cmds.len(),
        -1 <= l < cmds.len(),
        l >= 0 ==> cmds[l].key() == c.key(),
        forall|j: int| l < j < cmds.len() ==> (#[trigger] cmds[j]).key() != c.key(),
    ensures
        superseded_among(cmds.push(c), n) == superseded_among(cmds, n) + if 0 <= l < n
            && cmds[l] is Put {
            cmds[l].encode().len() as int
        } else {
            0
        },
    decreases n,
{
    if n > 0 {
        let i = n - 1;
        let more = cmds.push(c);
        lemma_push_among(cmds, c, l, i);
        assert(more[i] == cmds[i]);
        if is_superseded(cmds, i) {
            let j = choose|j: int|
                i < j < cmds.len() && (#[trigger] cmds[j]).key() == cmds[i].key();
            assert(more[j].key() == more[i].key());
            assert(is_superseded(more, i));
            assert(i != l) by {
                if i == l {
                    assert(cmds[j].key() != c.key());
                }
            }
        } else if cmds[i] is Put {
            if cmds[i].key() == c.key() {
                assert(more[cmds.len() as int].key() == more[i].key());
                assert(is_superseded(more, i));
                assert(i == l) by {
                    if i < l {
                        assert(cmds[l].key() == cmds[i].key());
                    }
                }
            } else {
                assert(!is_superseded(more, i)) by {
                    if is_superseded(more, i) {
                        let j = choose|j: int|
                            i < j < more.len() && (#[trigger] more[j]).key() == more[i].key();
                        assert(j < cmds.len());
                        assert(cmds[j].key() == cmds[i].key());
                    }
                }
            }
        }
    }
}

/// One more record supersedes the last record about its key, if that is a Put.
proof fn lemma_push(cmds: Seq<CommandView>, c: CommandView)
    ensures
        superseded_bytes(cmds.push(c)) == superseded_bytes(cmds) + last_put_len(cmds, c.key()),
        last_put_len(cmds, c.key()) >= 0,
{
    let more = cmds.push(c);
    let n = cmds.len() as int;
    let l = lemma_last(cmds, c.key());
    lemma_push_among(cmds, c, l, n);
    assert(!is_superseded(more, n));
}

/// Entering a record keeps the lengths.
proof fn lemma_holds_lengths(
    keydir: Map<Seq<u8>, IndexValue>,
    cmds: Seq<CommandView>,
    c: CommandView,
    file_id: u64,
    offset: u64,
)
    requires
        holds_lengths(keydir, cmds),
        c.encode().len() <= usize::MAX,
    ensures
        holds_lengths(
            keydir_after(keydir, c, file_id, offset, c.encode().len() as usize),
            cmds.push(c),
        ),
{
    let after = keydir_after(keydir, c, file_id, offset, c.encode().len() as usize);
    assert(cmds.push(c).drop_last() =~= cmds);
    assert forall|key: Seq<u8>| #[trigger]
        last_put_len(cmds.push(c), key) == (if after.contains_key(key) {
            after[key].len as int
        } else {
            0
        }) by {
        assert(last_put_len(cmds, key) == (if keydir.contains_key(key) {
            keydir[key].len as int
        } else {
            0
        }));
    }
}

proof fn lemma_appended_cmds(files: Seq<LogFile>, c: CommandView)
    requires
        files.len() > 0,
    ensures
        all_cmds(append_to_last(files, c)) == all_cmds(files).push(c),
        append_to_last(files, c).last().bytes().len() == files.last().bytes().len()
            + c.encode().len(),
{
    let after = append_to_last(files, c);
    assert(after.drop_last() =~= files.drop_last());
    assert(all_cmds(after) =~= all_cmds(files).push(c));
    assert(after.last().cmds.drop_last() =~= files.last().cmds);
}

/// Whether an event is a write, a rotation or a sync.
pub open spec fn plain(event: Event) -> bool {
    event is Assign || event is Remove || event is Rotate || event is Sync
}

/// Whether a store without a merge has counted what its log has superseded
/// since the count was `base`.
spec fn counted(w: World, base: int) -> bool {
    &&& w is Idle
    &&& w.state().writer.stale_bytes_count == base + superseded_bytes(all_cmds(w.files()))
    &&& holds_lengths(w.state().index@, all_cmds(w.files()))
}

proof fn lemma_counted_step(w: World, event: Event, v: World, base: int)
    requires
        w.sound(),
        step(w, event, v),
        plain(event),
        counted(w, base),
        base + superseded_bytes(all_cmds(v.files())) <= u64::MAX,
    ensures
        counted(v, base),
{
    let files = w.files();
    match written(event) {
        Some(c) => {
            lemma_appended_cmds(files, c);
            lemma_push(all_cmds(files), c);
            assert(v.files().last().storable()) by {
                assert(v.files()[files.len() - 1].storable());
            }
            lemma_holds_lengths(
                w.state().index@,
                all_cmds(files),
                c,
                w.state().writer.current_file_id,
                w.state().writer.offset,
            );
            assert(last_put_len(all_cmds(files), c.key()) == (if w.state().index@.contains_key(
                c.key(),
            ) {
                w.state().index@[c.key()].len as int
            } else {
                0
            }));
        },
        None => {
            if let Event::Rotate { id, .. } = event {
                assert(v.files().drop_last() =~= files);
                assert(all_cmds(v.files()) =~= all_cmds(files));
            }
        },
    }
}

/// A log only ever has more superseded bytes.
proof fn lemma_superseded_grows(w: World, event: Event, v: World)
    requires
        w is Idle,
        w.sound(),
        step(w, event, v),
        plain(event),
    ensures
        v is Idle,
        superseded_bytes(all_cmds(w.files())) <= superseded_bytes(all_cmds(v.files())),
{
    let files = w.files();
    match written(event) {
        Some(c) => {
            lemma_appended_cmds(files, c);
            lemma_push(all_cmds(files), c);
        },
        None => {
            if let Event::Rotate { id, .. } = event {
                assert(v.files().drop_last() =~= files);
                assert(all_cmds(v.files()) =~= all_cmds(files));
            }
        },
    }
}

/// Behind any sequence of writes, rotations and syncs the count of stale bytes
/// has risen by exactly the bytes of the records that were superseded by it.
pub proof fn law_stale_count(
    worlds: Seq<World>,
    events: Seq<Event>,
    start: Map<Seq<char>, Seq<char>>,
)
    requires
        history(worlds, events, start),
        forall|i: int| 0 <= i < events.len() ==> plain(#[trigger] events[i]),
        worlds[0] is Idle,
        holds_lengths(worlds[0].state().index@, all_cmds(worlds[0].files())),
        worlds[0].state().writer.stale_bytes_count + superseded_bytes(
            all_cmds(worlds.last().files()),
        ) - superseded_bytes(all_cmds(worlds[0].files())) <= u64::MAX,
    ensures
        worlds.last().state().writer.stale_bytes_count
            == worlds[0].state().writer.stale_bytes_count + superseded_bytes(
            all_cmds(worlds.last().files()),
        ) - superseded_bytes(all_cmds(worlds[0].files())),
        holds_lengths(worlds.last().state().index@, all_cmds(worlds.last().files())),
        worlds.last() is Idle,
    decreases events.len(),
{
    let base = worlds[0].state().writer.stale_bytes_count - superseded_bytes(
        all_cmds(worlds[0].files()),
    );
    if events.len() > 0 {
        let n = events.len() - 1;
        let (before, past) = (worlds.drop_last(), events.drop_last());
        assert forall|i: int| 0 <= i < past.len() implies step(
            before[i],
            #[trigger] past[i],
            before[i + 1],
        ) by {
            assert(past[i] == events[i]);
        }
        assert forall|i: int| 0 <= i < past.len() implies plain(#[trigger] past[i]) by {
            assert(past[i] == events[i]);
        }
        law_history(before, past, start);
        assert(before.last() == worlds[n]);
        assert(step(worlds[n], events[n], worlds[n + 1]));
        lemma_idle(before, past, start);
        lemma_superseded_grows(worlds[n], events[n], worlds[n + 1]);
        law_stale_count(before, past, start);
        lemma_counted_step(worlds[n], events[n], worlds[n + 1], base);
    }
}

proof fn lemma_idle(worlds: Seq<World>, events: Seq<Event>, start: Map<Seq<char>, Seq<char>>)
    requires
        history(worlds, events, start),
        forall|i: int| 0 <= i < events.len() ==> plain(#[trigger] events[i]),
        worlds[0] is Idle,
    ensures
        worlds.last() is Idle,
    decreases events.len(),
{
    if events.len() > 0 {
        let n = events.len() - 1;
        let (before, past) = (worlds.drop_last(), events.drop_last());
        assert forall|i: int| 0 <= i < past.len() implies step(
            before[i],
            #[trigger] past[i],
            before[i + 1],
        ) by {
            assert(past[i] == events[i]);
        }
        assert forall|i: int| 0 <= i < past.len() implies plain(#[trigger] past[i]) by {
            assert(past[i] == events[i]);
        }
        lemma_idle(before, past, start);
        assert(step(worlds[n], events[n], worlds[n + 1]));
        assert(plain(events[n]));
    }
}

/// From an empty store on, behind any sequence of writes, rotations and syncs,
/// the count of stale bytes is the length of all records that a later record
/// about the same key has superseded.
pub proof fn law_stale_count_from_empty(
    store: Bitcask,
    now: u64,
    worlds: Seq<World>,
    events: Seq<Event>,
)
    requires
        store.opened_over(Seq::empty(), now),
        worlds.len() == events.len() + 1,
        worlds[0] == (World::Idle {
            core: store,
            files: seq![LogFile { id: 1, cmds: Seq::empty() }],
        }),
        forall|i: int|
            0 <= i < events.len() ==> step(worlds[i], #[trigger] events[i], worlds[i + 1]),
        forall|i: int| 0 <= i < events.len() ==> plain(#[trigger] events[i]),
        superseded_bytes(all_cmds(worlds.last().files())) <= u64::MAX,
    ensures
        worlds.last().state().writer.stale_bytes_count == superseded_bytes(
            all_cmds(worlds.last().files()),
        ),
{
    let first = LogFile { id: 1, cmds: Seq::<CommandView>::empty() };
    let files = seq![first];
    let images = seq![FileImageView { id: 1, data: Seq::<u8>::empty(), hint: None }];
    law_first_open(store, now);
    assert(files.drop_last() =~= Seq::<LogFile>::empty());
    assert(all_cmds(files.drop_last()) =~= Seq::<CommandView>::empty());
    assert(all_cmds(files) =~= Seq::<CommandView>::empty());
    assert(first.storable());
    assert(images.last().data =~= files.last().bytes() + Seq::<u8>::empty());
    assert(crate::bitcask::files_to_open(Seq::empty()) =~= images);
    law_reopen(images, files, Seq::empty());
    lemma_fold_files(files);
    assert(holds_lengths(store.index@, all_cmds(files)));
    assert(store.writer.stale_bytes_count == 0);
    law_stale_count(worlds, events, Map::empty());
}

proof fn lemma_fold_cmds(
    before: Seq<CommandView>,
    file: LogFile,
    i: int,
    state: ReplayState,
)
    requires
        file.storable(),
        0 <= i <= file.cmds.len(),
        holds_lengths(state.keydir, before),
        state.stale == removal_bytes(before),
    ensures
        ({
            let after = fold_cmds(file.id, file.cmds.take(i), state);
            &&& holds_lengths(after.keydir, before + file.cmds.take(i))
            &&& after.stale == removal_bytes(before + file.cmds.take(i))
        }),
    decreases i,
{
    if i == 0 {
        assert(file.cmds.take(0) =~= Seq::<CommandView>::empty());
        assert(before + file.cmds.take(0) =~= before);
    } else {
        let c = file.cmds[i - 1];
        let front = file.cmds.take(i - 1);
        lemma_fold_cmds(before, file, i - 1, state);
        crate::log_model::lemma_place(file, i - 1);
        assert(file.cmds.take(i).drop_last() =~= front);
        assert(before + file.cmds.take(i) =~= (before + front).push(c));
        assert((before + front).push(c).drop_last() =~= before + front);
        lemma_holds_lengths(
            fold_cmds(file.id, front, state).keydir,
            before + front,
            c,
            file.id,
            log_bytes(front).len() as u64,
        );
    }
}

proof fn lemma_fold_files(files: Seq<LogFile>)
    requires
        valid_files(files),
    ensures
        holds_lengths(fold_files(files).keydir, all_cmds(files)),
        fold_files(files).stale == removal_bytes(all_cmds(files)),
    decreases files.len(),
{
    if files.len() > 0 {
        let front = files.drop_last();
        let last = files.last();
        assert(files[files.len() - 1].storable());
        assert forall|i: int| 0 <= i < front.len() implies (#[trigger] front[i]).storable() by {
            assert(files[i].storable());
        }
        lemma_fold_files(front);
        let n = last.cmds.len() as int;
        lemma_fold_cmds(
            all_cmds(front),
            last,
            n,
            ReplayState { offset: 0, ..fold_files(front) },
        );
        assert(last.cmds.take(n) =~= last.cmds);
    } else {
        assert(all_cmds(files) =~= Seq::<CommandView>::empty());
    }
}

/// A store that is opened again counts as stale the bytes of the removals in
/// its log, and from then on what writes supersede.
pub proof fn law_stale_count_of_opened(
    images: Seq<FileImageView>,
    files: Seq<LogFile>,
    tail: Seq<u8>,
    store: Bitcask,
    now: u64,
)
    requires
        shows_store(images, files, tail),
        store.opened_over(images, now),
        removal_bytes(all_cmds(files)) <= u64::MAX,
    ensures
        store.writer.stale_bytes_count == removal_bytes(all_cmds(files)),
        store.writer.flushed_offset == 0,
        store.writer.last_ts_flushed == now,
        holds_lengths(store.index@, all_cmds(files)),
{
    law_reopen(images, files, tail);
    lemma_fold_files(files);
    lemma_removal_bytes(all_cmds(files));
}

proof fn lemma_removal_bytes(cmds: Seq<CommandView>)
    ensures
        removal_bytes(cmds) >= 0,
    decreases cmds.len(),
{
    if cmds.len() > 0 {
        lemma_removal_bytes(cmds.drop_last());
    }
}

} // verus!
