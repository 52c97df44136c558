//! What a whole merge comes to when nothing is written meanwhile.
use vstd::prelude::*;

use crate::bitcask::Bitcask;
use crate::command::CommandView;
use crate::index_value::IndexValue;
use crate::log_model::{among, store_contents, valid_files, LogFile};
use crate::merge::{apply_pending, sits_at, Merge, MergeAction, PendingView};
use crate::merge_model::{
    copied, is_live, lemma_copied_len, lemma_offset_grows, merge_copy, merge_finish, merge_open, merge_remove,
    merge_start, MergeModel,
};
use crate::recovery::all_hints;
use crate::store_model::{
    law_file_copied, law_merge_done, law_merge_under_way, law_output_finished, law_output_opened,
    law_source_removed, represents, sources_are, tracks,
};

verus! {

/// The files of a finished output: its id, and what was written to its data
/// file and to its hint file.
pub struct OutputFiles {
    pub id: u64,
    pub data: Seq<u8>,
    pub hints: Seq<u8>,
}

/// A merge that is under way, and what it has written so far: the finished
/// outputs, and the data and the hints of the one that is being written.
pub struct RunState {
    pub store: Bitcask,
    pub merge: Merge,
    pub made: Seq<OutputFiles>,
    pub data: Seq<u8>,
    pub hints: Seq<u8>,
}

/// One action of a merge over these files, performed and entered.
pub open spec fn run_step(sources: Seq<LogFile>, s: RunState, t: RunState) -> bool {
    &&& t.store.wf()
    &&& t.merge.wf()
    &&& match s.merge.action() {
        MergeAction::OpenOutput { .. } => {
            &&& s.merge.opened(&t.merge)
            &&& t.store == s.store
            &&& t.made == s.made
            &&& t.data == Seq::<u8>::empty()
            &&& t.hints == Seq::<u8>::empty()
        },
        MergeAction::CopyFrom { .. } => {
            let state = s.merge.copy_of(
                s.store.index@,
                sources[s.merge.next as int].bytes(),
            ).0;
            &&& s.merge.copied(&t.merge, state)
            &&& t.store == s.store
            &&& t.made == s.made
            &&& t.data == s.data + state.records
            &&& t.hints == s.hints + state.hints
        },
        MergeAction::FinishOutput { id } => {
            &&& s.merge.finished_into(&s.store, &t.merge, &t.store)
            &&& t.made == s.made.push(OutputFiles { id, data: s.data, hints: s.hints })
        },
        MergeAction::RemoveSource { .. } => {
            &&& s.merge.removed_from(&s.store, &t.merge, &t.store)
            &&& t.made == s.made
        },
        MergeAction::Complete => false,
    }
}

/// A whole merge of the sealed files of a store: it is planned, the active
/// file moves on, every action is performed in turn, and the stale bytes are
/// settled at the end.
pub open spec fn run(
    before: Bitcask,
    files: Seq<LogFile>,
    now: u64,
    states: Seq<RunState>,
    after: Bitcask,
) -> bool {
    let first = states[0];
    let last = states.last();
    &&& represents(&before, files)
    &&& states.len() > 0
    &&& first.merge.wf()
    &&& first.merge.total() <= usize::MAX
    &&& first.merge.planned(&before, first.merge.sources@)
    &&& sources_are(first.merge.sources@, files.drop_last())
    &&& first.store.wf()
    &&& before.rotated(&first.store, first.merge.next_active, now)
    &&& first.made == Seq::<OutputFiles>::empty()
    &&& forall|i: int|
        0 <= i < states.len() - 1 ==> run_step(
            files.drop_last(),
            #[trigger] states[i],
            states[i + 1],
        )
    &&& last.merge.action() is Complete
    &&& after.wf()
    &&& last.merge.completed(&last.store, &after)
}

/// Whether every record of a file is what its key stands at.
pub open spec fn all_live(file: LogFile, keydir: Map<Seq<u8>, IndexValue>) -> bool {
    forall|x: int|
        0 <= x < file.cmds.len() ==> (#[trigger] file.cmds[x]) is Put && keydir.contains_key(
            file.cmds[x].key(),
        ) && keydir[file.cmds[x].key()] == file.place(x)
}

/// Whether no file is longer.
pub open spec fn none_longer(files: Seq<LogFile>, longest: int) -> bool {
    forall|i: int| 0 <= i < files.len() ==> (#[trigger] files[i]).bytes().len() <= longest
}

/// Whether a file is shorter than a size and the longest of these files
/// together.
pub open spec fn bounded(file: LogFile, size: u64, files: Seq<LogFile>) -> bool {
    forall|longest: int| #[trigger]
        none_longer(files, longest) ==> file.bytes().len() < size + longest
}

/// What a whole merge comes to, over the outputs that it has made.
pub open spec fn merged(
    before: Bitcask,
    files: Seq<LogFile>,
    states: Seq<RunState>,
    after: Bitcask,
    outputs: Seq<LogFile>,
) -> bool {
    let next_active = states[0].merge.next_active;
    let fresh = LogFile { id: next_active, cmds: Seq::empty() };
    let left = seq![files.last()] + outputs + seq![fresh];
    let made = states.last().made;
    // the store keeps the file that was active, the outputs and a fresh file
    &&& represents(&after, left)
    // every key has the value that it had
    &&& store_contents(left) == store_contents(files)
    // none of the files that were merged is left
    &&& forall|i: int|
        0 <= i < files.len() - 1 ==> !after.readers@.contains((#[trigger] files[i]).id)
    // the outputs lie between the two active files
    &&& forall|o: int|
        0 <= o < outputs.len() ==> files.last().id < (#[trigger] outputs[o]).id < next_active
    // each but the last has the size of a data file, and none is longer than that
    // and a sealed file
    &&& forall|o: int|
        0 <= o < outputs.len() - 1 ==> (#[trigger] outputs[o]).bytes().len()
            >= before.config.file_size_threshold
    &&& forall|o: int|
        0 <= o < outputs.len() ==> bounded(
            #[trigger] outputs[o],
            before.config.file_size_threshold,
            files.drop_last(),
        )
    // they hold only records that keys stand at, and one hint for each
    &&& forall|o: int| 0 <= o < outputs.len() ==> all_live(#[trigger] outputs[o], after.index@)
    &&& made.len() == outputs.len()
    &&& forall|o: int|
        0 <= o < outputs.len() ==> #[trigger] made[o] == (OutputFiles {
            id: outputs[o].id,
            data: outputs[o].bytes(),
            hints: all_hints(outputs[o]),
        })
    // the stale bytes that were counted at the start are settled
    &&& after.writer.stale_bytes_count == before.writer.stale_bytes_count
        - states[0].merge.init_stale_bytes
    &&& states[0].merge.init_stale_bytes == before.writer.stale_bytes_count
}

/// Whether an update is for a record of the output, and its key still stands
/// where it was copied from.
spec fn fits(out: LogFile, keydir: Map<Seq<u8>, IndexValue>, q: int, p: PendingView) -> bool {
    &&& out.cmds[q] is Put
    &&& p.key == out.cmds[q].key()
    &&& p.new == out.place(q)
    &&& sits_at(keydir, p.key, p.previous_value.file_id, p.previous_value.offset)
}

/// Whether each pending update is for the record of the output with its
/// number, and its key still stands where it was copied from. No key occurs
/// twice.
spec fn aligned(
    out: LogFile,
    pending: Seq<PendingView>,
    keydir: Map<Seq<u8>, IndexValue>,
) -> bool {
    &&& pending.len() == out.cmds.len()
    &&& forall|q: int| 0 <= q < pending.len() ==> fits(out, keydir, q, #[trigger] pending[q])
    &&& forall|q: int, r: int|
        0 <= q < r < pending.len() ==> (#[trigger] pending[q]).key != (#[trigger] pending[r]).key
}

/// Whether an update is for one of the first `i` records of a file, or for a
/// file that earlier updates are for.
spec fn in_front(file: LogFile, pending: Seq<PendingView>, i: int, p: PendingView) -> bool {
    if p.previous_value.file_id == file.id {
        p.previous_value.offset < file.offset(i)
    } else {
        exists|r: int|
            0 <= r < pending.len() && (#[trigger] pending[r]).previous_value.file_id
                == p.previous_value.file_id
    }
}

/// Copying from a file keeps the updates aligned.
proof fn lemma_copied_aligned(
    file: LogFile,
    keydir: Map<Seq<u8>, IndexValue>,
    out: LogFile,
    pending: Seq<PendingView>,
    i: int,
)
    requires
        file.storable(),
        0 <= i <= file.cmds.len(),
        aligned(out, pending, keydir),
        forall|q: int|
            0 <= q < pending.len() ==> (#[trigger] pending[q]).previous_value.file_id != file.id,
    ensures
        ({
            let (o, p) = copied(file, keydir, out, pending, i);
            &&& aligned(o, p, keydir)
            &&& forall|q: int|
                0 <= q < p.len() ==> in_front(file, pending, i, #[trigger] p[q])
        }),
    decreases i,
{
    let (o2, p2) = copied(file, keydir, out, pending, i);
    if i == 0 {
        assert forall|q: int| 0 <= q < p2.len() implies in_front(
            file,
            pending,
            i,
            #[trigger] p2[q],
        ) by {
            assert(pending[q].previous_value.file_id == p2[q].previous_value.file_id);
        }
    } else {
        lemma_copied_aligned(file, keydir, out, pending, i - 1);
        let (o, p) = copied(file, keydir, out, pending, i - 1);
        let n = file.cmds.len() as int;
        lemma_offset_grows(file, i - 1, i);
        lemma_offset_grows(file, i, n);
        if is_live(file, keydir, i - 1) {
            let c = file.cmds[i - 1];
            let new = p2.last();
            assert(o2.cmds =~= o.cmds.push(c));
            assert forall|q: int| 0 <= q < p2.len() implies fits(
                o2,
                keydir,
                q,
                #[trigger] p2[q],
            ) by {
                if q < p.len() {
                    assert(p2[q] == p[q]);
                    assert(fits(o, keydir, q, p[q]));
                    assert(o2.cmds.take(q) =~= o.cmds.take(q));
                }
            }
            assert forall|q: int, r: int| 0 <= q < r < p2.len() implies (#[trigger] p2[q]).key != (
            #[trigger] p2[r]).key by {
                assert(p2[q] == p[q]);
                if r < p.len() {
                    assert(p2[r] == p[r]);
                } else {
                    assert(p2[r] == new);
                    assert(in_front(file, pending, i - 1, p[q]));
                    if p[q].key == new.key {
                        assert(p[q].previous_value.offset == new.previous_value.offset);
                    }
                }
            }
        }
        assert forall|q: int| 0 <= q < p2.len() implies in_front(
            file,
            pending,
            i,
            #[trigger] p2[q],
        ) by {
            if q < p.len() {
                assert(p2[q] == p[q]);
                assert(in_front(file, pending, i - 1, p[q]));
            }
        }
    }
}

/// Updates that are aligned are all carried out, and nothing else changes.
proof fn lemma_apply_aligned(
    out: LogFile,
    pending: Seq<PendingView>,
    keydir: Map<Seq<u8>, IndexValue>,
    n: int,
)
    requires
        aligned(out, pending, keydir),
        0 <= n <= pending.len(),
    ensures
        ({
            let moved = apply_pending(keydir, pending.take(n));
            &&& forall|q: int|
                0 <= q < n ==> moved.contains_key((#[trigger] pending[q]).key)
                    && moved[pending[q].key] == pending[q].new
            &&& forall|key: Seq<u8>|
                (forall|q: int| 0 <= q < n ==> (#[trigger] pending[q]).key != key) ==> (
                #[trigger] moved.contains_key(key) == keydir.contains_key(key) && moved[key]
                    == keydir[key])
        }),
    decreases n,
{
    if n > 0 {
        lemma_apply_aligned(out, pending, keydir, n - 1);
        let before = apply_pending(keydir, pending.take(n - 1));
        let moved = apply_pending(keydir, pending.take(n));
        let p = pending[n - 1];
        assert(pending.take(n).drop_last() =~= pending.take(n - 1));
        assert(pending.take(n).last() == p);
        assert forall|q: int| 0 <= q < n - 1 implies (#[trigger] pending[q]).key != p.key by {
            assert(pending[q].key != pending[n - 1].key);
        }
        assert(before.contains_key(p.key) == keydir.contains_key(p.key));
        assert(moved == before.insert(p.key, p.new));
        assert forall|key: Seq<u8>|
            (forall|q: int| 0 <= q < n ==> (#[trigger] pending[q]).key != key) implies (
        #[trigger] moved.contains_key(key) == keydir.contains_key(key) && moved[key]
            == keydir[key]) by {
            assert(pending[n - 1].key != key);
            assert(before.contains_key(key) == keydir.contains_key(key));
        }
    }
}

/// Whether a finished output has the size of a data file, or is the last.
spec fn sized(threshold: u64, m: MergeModel, o: int) -> bool {
    ||| m.settled[o].bytes().len() >= threshold
    ||| o == m.settled.len() - 1 && m.output is None && m.next == m.sources.len()
}

/// What every action of a merge keeps when nothing is written meanwhile.
spec fn run_inv(files: Seq<LogFile>, next_active: u64, s: RunState, m: MergeModel) -> bool {
    &&& tracks(&s.store, &s.merge, m)
    &&& s.merge.total() <= usize::MAX
    &&& s.merge.next_active == next_active
    &&& files.len() > 0
    &&& m.sources == files.drop_last()
    &&& m.settled.len() > 0
    &&& m.settled[0] == files.last()
    &&& m.tail == seq![LogFile { id: next_active, cmds: Seq::empty() }]
    &&& m.contents() == store_contents(files)
    &&& s.made.len() == m.settled.len() - 1
    &&& forall|o: int|
        0 <= o < s.made.len() ==> #[trigger] s.made[o] == (OutputFiles {
            id: m.settled[o + 1].id,
            data: m.settled[o + 1].bytes(),
            hints: all_hints(m.settled[o + 1]),
        })
    &&& forall|o: int| 0 < o < m.settled.len() ==> all_live(#[trigger] m.settled[o], m.keydir)
    &&& forall|o: int| 0 < o < m.settled.len() ==> sized(s.merge.file_size_threshold, m, o)
    &&& forall|o: int|
        0 < o < m.settled.len() ==> bounded(
            #[trigger] m.settled[o],
            s.merge.file_size_threshold,
            m.sources,
        )
    &&& m.output is Some ==> {
        &&& bounded(m.output->0, s.merge.file_size_threshold, m.sources)
        &&& s.data == m.output->0.bytes()
        &&& s.hints == all_hints(m.output->0)
        &&& aligned(m.output->0, m.pending, m.keydir)
        &&& forall|q: int|
            0 <= q < m.pending.len() ==> among(
                m.sources,
                m.next,
                (#[trigger] m.pending[q]).previous_value.file_id,
            )
    }
}

/// None of the files that a merge has made, or kept, has the id of a source.
proof fn lemma_settled_ids(m: MergeModel, o: int)
    requires
        valid_files(m.all_files()),
        0 <= o < m.settled.len(),
    ensures
        !among(m.sources, m.sources.len() as int, m.settled[o].id),
{
    let all = m.all_files();
    let at = m.sources.len() + o;
    assert(all[at] == m.settled[o]);
    assert forall|j: int| 0 <= j < m.sources.len() implies (#[trigger] m.sources[j]).id
        != m.settled[o].id by {
        assert(all[j] == m.sources[j]);
        assert(all[j].id < all[at].id);
    }
}

proof fn lemma_run_copy(files: Seq<LogFile>, next_active: u64, s: RunState, t: RunState, m: MergeModel)
    requires
        run_inv(files, next_active, s, m),
        run_step(files.drop_last(), s, t),
        s.merge.action() is CopyFrom,
    ensures
        run_inv(files, next_active, t, merge_copy(m)),
{
    let file = m.sources[m.next];
    let n = file.cmds.len() as int;
    let next = merge_copy(m);
    law_file_copied(s.store, s.merge, t.merge, m);
    let all = m.all_files();
    assert(all[m.next] == file);
    assert(file.storable());
    assert forall|q: int| 0 <= q < m.pending.len() implies (
    #[trigger] m.pending[q]).previous_value.file_id != file.id by {
        let j = choose|j: int|
            0 <= j < m.next && (#[trigger] m.sources[j]).id == m.pending[q].previous_value.file_id;
        assert(all[j] == m.sources[j]);
        assert(all[j].id < all[m.next].id);
    }
    lemma_copied_aligned(file, m.keydir, m.output->0, m.pending, n);
    lemma_copied_len(file, m.keydir, m.output->0, m.pending, n);
    assert(file.cmds.take(n) =~= file.cmds);
    assert forall|longest: int| #[trigger] none_longer(m.sources, longest) implies
        next.output->0.bytes().len() < s.merge.file_size_threshold + longest by {
        assert(m.sources[m.next].bytes().len() <= longest);
    }
    assert forall|o: int| 0 < o < next.settled.len() implies sized(
        t.merge.file_size_threshold,
        next,
        o,
    ) by {
        assert(sized(s.merge.file_size_threshold, m, o));
    }
    assert forall|q: int| 0 <= q < next.pending.len() implies among(
        next.sources,
        next.next,
        (#[trigger] next.pending[q]).previous_value.file_id,
    ) by {
        let id = next.pending[q].previous_value.file_id;
        assert(in_front(file, m.pending, n, next.pending[q]));
        if id == file.id {
            assert(next.sources[m.next].id == id);
        } else {
            let r = choose|r: int|
                0 <= r < m.pending.len() && (#[trigger] m.pending[r]).previous_value.file_id == id;
            let j = choose|j: int| 0 <= j < m.next && (#[trigger] m.sources[j]).id == id;
            assert(next.sources[j].id == id);
        }
    }
}

proof fn lemma_run_finish(
    files: Seq<LogFile>,
    next_active: u64,
    s: RunState,
    t: RunState,
    m: MergeModel,
)
    requires
        run_inv(files, next_active, s, m),
        run_step(files.drop_last(), s, t),
        s.merge.action() is FinishOutput,
    ensures
        run_inv(files, next_active, t, merge_finish(m)),
{
    let next = merge_finish(m);
    let out = m.output->0;
    let n = m.pending.len() as int;
    law_output_finished(s.store, t.store, s.merge, t.merge, m);
    lemma_apply_aligned(out, m.pending, m.keydir, n);
    assert(m.pending.take(n) =~= m.pending);
    assert forall|o: int| 0 < o < next.settled.len() implies sized(
        t.merge.file_size_threshold,
        next,
        o,
    ) by {
        if o < m.settled.len() {
            assert(sized(s.merge.file_size_threshold, m, o));
            assert(next.settled[o] == m.settled[o]);
        }
    }
    assert forall|o: int| 0 < o < next.settled.len() implies bounded(
        #[trigger] next.settled[o],
        t.merge.file_size_threshold,
        next.sources,
    ) by {
        if o < m.settled.len() {
            assert(next.settled[o] == m.settled[o]);
        }
    }
    assert forall|o: int| 0 < o < next.settled.len() implies all_live(
        #[trigger] next.settled[o],
        next.keydir,
    ) by {
        let file = next.settled[o];
        if o < m.settled.len() {
            assert(file == m.settled[o]);
            assert(all_live(file, m.keydir));
            lemma_settled_ids(m, o);
            assert forall|x: int| 0 <= x < file.cmds.len() implies (
            #[trigger] file.cmds[x]) is Put && next.keydir.contains_key(file.cmds[x].key())
                && next.keydir[file.cmds[x].key()] == file.place(x) by {
                let key = file.cmds[x].key();
                assert forall|q: int| 0 <= q < n implies (#[trigger] m.pending[q]).key != key by {
                    if m.pending[q].key == key {
                        let id = m.pending[q].previous_value.file_id;
                        assert(id == file.id);
                        let j = choose|j: int|
                            0 <= j < m.next && (#[trigger] m.sources[j]).id == id;
                        assert(m.sources[j].id == file.id);
                    }
                }
                assert(m.keydir.contains_key(key));
                assert(next.keydir.contains_key(key) == m.keydir.contains_key(key));
            }
        } else {
            assert(file == out);
            assert forall|x: int| 0 <= x < file.cmds.len() implies (
            #[trigger] file.cmds[x]) is Put && next.keydir.contains_key(file.cmds[x].key())
                && next.keydir[file.cmds[x].key()] == file.place(x) by {
                assert(m.pending[x].key == out.cmds[x].key());
            }
        }
    }
    assert forall|o: int| 0 <= o < t.made.len() implies #[trigger] t.made[o] == (OutputFiles {
        id: next.settled[o + 1].id,
        data: next.settled[o + 1].bytes(),
        hints: all_hints(next.settled[o + 1]),
    }) by {
        if o < s.made.len() {
            assert(t.made[o] == s.made[o]);
        }
    }
}

proof fn lemma_run_step(
    files: Seq<LogFile>,
    next_active: u64,
    s: RunState,
    t: RunState,
    m: MergeModel,
) -> (next: MergeModel)
    requires
        run_inv(files, next_active, s, m),
        run_step(files.drop_last(), s, t),
    ensures
        run_inv(files, next_active, t, next),
{
    match s.merge.action() {
        MergeAction::OpenOutput { .. } => {
            let next = merge_open(m, t.merge.last_output_id);
            law_output_opened(s.store, s.merge, t.merge, m);
            assert(bounded(next.output->0, t.merge.file_size_threshold, m.sources)) by {
                assert forall|longest: int| #[trigger] none_longer(m.sources, longest) implies 0
                    <= longest by {
                    assert(m.sources[m.next].bytes().len() <= longest);
                }
            }
            assert forall|o: int| 0 < o < next.settled.len() implies sized(
                t.merge.file_size_threshold,
                next,
                o,
            ) by {
                assert(sized(s.merge.file_size_threshold, m, o));
            }
            assert(t.data =~= next.output->0.bytes());
            assert(t.hints =~= all_hints(next.output->0));
            next
        },
        MergeAction::CopyFrom { .. } => {
            lemma_run_copy(files, next_active, s, t, m);
            merge_copy(m)
        },
        MergeAction::FinishOutput { .. } => {
            lemma_run_finish(files, next_active, s, t, m);
            merge_finish(m)
        },
        MergeAction::RemoveSource { .. } => {
            let next = merge_remove(m);
            law_source_removed(s.store, t.store, s.merge, t.merge, m);
            assert forall|o: int| 0 < o < next.settled.len() implies sized(
                t.merge.file_size_threshold,
                next,
                o,
            ) by {
                assert(sized(s.merge.file_size_threshold, m, o));
            }
            next
        },
        MergeAction::Complete => m,
    }
}

proof fn lemma_run(
    before: Bitcask,
    files: Seq<LogFile>,
    now: u64,
    states: Seq<RunState>,
    after: Bitcask,
    i: int,
) -> (m: MergeModel)
    requires
        run(before, files, now, states, after),
        0 <= i < states.len(),
    ensures
        run_inv(files, states[0].merge.next_active, states[i], m),
        states[i].store.writer.stale_bytes_count == before.writer.stale_bytes_count,
        states[i].merge.init_stale_bytes == before.writer.stale_bytes_count,
        states[i].merge.file_size_threshold == before.config.file_size_threshold,
    decreases i,
{
    let next_active = states[0].merge.next_active;
    if i == 0 {
        law_merge_under_way(before, states[0].store, states[0].merge, files, now);
        merge_start(files.drop_last(), seq![files.last()], states[0].store.index@, next_active)
    } else {
        let m = lemma_run(before, files, now, states, after, i - 1);
        assert(run_step(files.drop_last(), states[i - 1], states[i - 1 + 1]));
        lemma_run_step(files, next_active, states[i - 1], states[i], m)
    }
}

/// A whole merge, with nothing written meanwhile, leaves every key with its
/// value and none of the files that it has merged. Its outputs lie between the
/// file that was active and the one that is active now; each but the last has
/// the size of a data file, and none is longer than that and the longest file
/// that was merged. They hold only records that keys stand at, and each has a
/// hint file with one hint for each of its records. The count of stale bytes falls by what it was at the start.
pub proof fn law_merge_run(
    before: Bitcask,
    files: Seq<LogFile>,
    now: u64,
    states: Seq<RunState>,
    after: Bitcask,
)
    requires
        run(before, files, now, states, after),
    ensures
        exists|outputs: Seq<LogFile>| #[trigger] merged(before, files, states, after, outputs),
{
    let last = states.last();
    let next_active = states[0].merge.next_active;
    let m = lemma_run(before, files, now, states, after, states.len() - 1);
    let outputs = m.settled.skip(1);
    let fresh = LogFile { id: next_active, cmds: Seq::<CommandView>::empty() };
    let left = seq![files.last()] + outputs + seq![fresh];
    law_merge_done(last.store, last.merge, m);
    assert(left =~= m.settled + m.tail);
    let all = m.all_files();
    let sources = m.sources.len() as int;
    assert forall|o: int| 0 <= o < outputs.len() implies files.last().id < (
    #[trigger] outputs[o]).id < next_active by {
        assert(all[sources] == m.settled[0]);
        assert(all[sources + o + 1] == outputs[o]);
        assert(all[sources + m.settled.len()] == m.tail[0]);
    }
    assert forall|i: int| 0 <= i < files.len() - 1 implies !after.readers@.contains(
        (#[trigger] files[i]).id,
    ) by {
        if among(left, left.len() as int, files[i].id) {
            let j = choose|j: int| 0 <= j < left.len() && (#[trigger] left[j]).id == files[i].id;
            assert(all[i] == m.sources[i] && m.sources[i] == files[i]);
            assert(all[sources + j] == left[j]);
            assert(all[i].id < all[sources + j].id);
        }
    }
    assert forall|o: int| 0 <= o < outputs.len() - 1 implies (
    #[trigger] outputs[o]).bytes().len() >= before.config.file_size_threshold by {
        assert(sized(last.merge.file_size_threshold, m, o + 1));
        assert(outputs[o] == m.settled[o + 1]);
    }
    assert forall|o: int| 0 <= o < outputs.len() implies bounded(
        #[trigger] outputs[o],
        before.config.file_size_threshold,
        files.drop_last(),
    ) by {
        assert(outputs[o] == m.settled[o + 1]);
    }
    assert forall|o: int| 0 <= o < outputs.len() implies all_live(
        #[trigger] outputs[o],
        after.index@,
    ) by {
        assert(outputs[o] == m.settled[o + 1]);
    }
    assert(merged(before, files, states, after, outputs));
}

} // verus!
