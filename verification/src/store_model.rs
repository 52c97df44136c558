//! What the bookkeeping of a store stands for: the files that it keeps, and a
//! merge that goes over them. Every operation keeps the two in step, so what
//! is proved of the files holds of the store.
use vstd::prelude::*;
use vstd::utf8::{decode_utf8, valid_utf8};

use crate::bitcask::{ascending, ids_of, opening, value_in, Bitcask};
use crate::command::CommandView;
use crate::error::KvsErrorView;
use crate::index::map_get;
use crate::loader::{replay_files, FileImageView, Loader, ReplayState, ScanEnd};
use crate::log_model::{
    among, append_to_last, contents_after, faithful, law_append, law_entry_has_file, law_read,
    law_rotate, store_contents, valid_files, LogFile,
};
use crate::merge::{lemma_source_bytes_take, pending_views, Merge, Source};
use crate::merge_model::{
    law_copy_file, law_merge_append, law_merge_copy, law_merge_files_valid, law_merge_finish,
    law_merge_open, law_merge_remove, law_merge_rotate, law_merge_start, lemma_copied_len,
    merge_append, merge_copy,
    merge_finish, merge_open, merge_remove, merge_rotate, merge_start, MergeModel,
};
use crate::recovery::{all_hints, law_reopen, shows, shows_store};

verus! {

/// Whether ids are those of the files.
pub open spec fn ids_are(readers: Seq<u64>, files: Seq<LogFile>) -> bool {
    forall|x: u64| #[trigger] readers.contains(x) <==> among(files, files.len() as int, x)
}

/// Whether a store keeps these files: its index is faithful to them, it knows
/// all of them, and it goes on writing at the end of the last.
pub open spec fn represents(core: &Bitcask, files: Seq<LogFile>) -> bool {
    &&& core.wf()
    &&& files.len() > 0
    &&& valid_files(files)
    &&& faithful(files, core.index@)
    &&& ids_are(core.readers@, files)
    &&& core.writer.current_file_id == files.last().id
    &&& core.writer.offset == files.last().bytes().len()
}

/// A store that was loaded from its files keeps these files, whether they have
/// hint files or not, and whether the last write was cut short or not.
pub proof fn law_loaded(
    images: Seq<FileImageView>,
    files: Seq<LogFile>,
    tail: Seq<u8>,
    loader: Loader,
    core: Bitcask,
)
    requires
        shows_store(images, files, tail),
        loader.writer.current_file_id == files.last().id,
        loader@ == replay_files(
            images,
            files.last().id,
            ReplayState { keydir: Map::empty(), stale: 0, offset: 0 },
        ).0,
        core.wf(),
        core.index == loader.index,
        core.writer == loader.writer,
        ids_are(core.readers@, files),
    ensures
        represents(&core, files),
{
    law_reopen(images, files, tail);
}

/// Opening a store over its files succeeds, and the store that comes of it
/// keeps these files.
pub proof fn law_opened(
    images: Seq<FileImageView>,
    files: Seq<LogFile>,
    tail: Seq<u8>,
    core: Bitcask,
    now: u64,
)
    requires
        shows_store(images, files, tail),
    ensures
        ascending(ids_of(images)),
        opening(images).1 is Ok,
        core.opened_over(images, now) ==> represents(&core, files),
{
    law_reopen(images, files, tail);
    assert forall|i: int| 0 <= i < files.len() implies (#[trigger] images[i]).id
        == files[i].id by {
        if i < files.len() - 1 {
            assert(shows(images[i], files[i]));
        }
    }
    if core.opened_over(images, now) {
        let ids = ids_of(images);
        assert forall|x: u64| #[trigger] core.readers@.contains(x) <==> among(
            files,
            files.len() as int,
            x,
        ) by {
            if ids.contains(x) {
                let j = choose|j: int| 0 <= j < ids.len() && ids[j] == x;
                assert(images[j].id == files[j].id);
                assert(files[j].id == x);
            }
            if among(files, files.len() as int, x) {
                let j = choose|j: int| 0 <= j < files.len() && (#[trigger] files[j]).id == x;
                assert(images[j].id == files[j].id);
                assert(ids[j] == x);
            }
        }
        assert(files.last().storable()) by {
            assert(files[files.len() - 1].storable());
        }
    }
}

/// A lookup finds exactly the keys that the contents have. The file that an
/// entry names is open, and what stands there is read as the value of the key.
pub proof fn law_get(core: Bitcask, files: Seq<LogFile>, key: Seq<u8>, f: int)
    requires
        represents(&core, files),
    ensures
        match map_get(core.index@, key) {
            None => !store_contents(files).contains_key(key),
            Some(entry) => {
                let value = store_contents(files)[key];
                &&& store_contents(files).contains_key(key)
                &&& core.readers@.contains(entry.file_id)
                &&& (0 <= f < files.len() && files[f].id == entry.file_id) ==> {
                    &&& entry.offset + entry.len <= files[f].bytes().len()
                    &&& value_in(
                        files[f].bytes().subrange(entry.offset as int, entry.offset + entry.len),
                    ) == (if valid_utf8(value) {
                        Ok::<Option<Seq<char>>, KvsErrorView>(Some(decode_utf8(value)))
                    } else {
                        Err(KvsErrorView::Utf8(value))
                    })
                }
            },
        },
{
    if core.index@.contains_key(key) {
        assert(store_contents(files).dom().contains(key));
        law_entry_has_file(files, core.index@, key);
        let g = choose|g: int|
            0 <= g < files.len() && #[trigger] files[g].id == core.index@[key].file_id;
        assert(among(files, files.len() as int, files[g].id));
        if 0 <= f < files.len() && files[f].id == core.index@[key].file_id {
            law_read(files, core.index@, key, f);
        }
    } else {
        assert(!core.index@.dom().contains(key));
    }
}

/// Entering a record that was appended to the active file changes the contents
/// as the record says, and nothing else.
pub proof fn law_appended(before: Bitcask, after: Bitcask, files: Seq<LogFile>, c: CommandView)
    requires
        represents(&before, files),
        valid_files(append_to_last(files, c)),
        after.wf(),
        before.appended(&after, c, c.encode().len() as usize),
    ensures
        represents(&after, append_to_last(files, c)),
        store_contents(append_to_last(files, c)) == contents_after(store_contents(files), c),
{
    let longer = append_to_last(files, c);
    let last = files.len() - 1;
    law_append(files, before.index@, c);
    lemma_same_ids(files, longer);
    assert(longer[last].cmds.drop_last() =~= files[last].cmds);
    assert(longer.last().storable()) by {
        assert(longer[last].storable());
    }
    assert(longer.last().bytes() == files.last().bytes() + c.encode());
}

/// Moving on to another file changes nothing of the contents.
pub proof fn law_rotated(
    before: Bitcask,
    after: Bitcask,
    files: Seq<LogFile>,
    next_file_id: u64,
    now: u64,
)
    requires
        represents(&before, files),
        next_file_id > files.last().id,
        after.wf(),
        before.rotated(&after, next_file_id, now),
    ensures
        represents(&after, files.push(LogFile { id: next_file_id, cmds: Seq::empty() })),
        store_contents(files.push(LogFile { id: next_file_id, cmds: Seq::empty() }))
            == store_contents(files),
{
    let fresh = LogFile { id: next_file_id, cmds: Seq::<CommandView>::empty() };
    let longer = files.push(fresh);
    law_rotate(files, before.index@, next_file_id);
    lemma_one_more_id(files, fresh);
    assert(fresh.storable());
    assert forall|i: int| 0 <= i < longer.len() implies (#[trigger] longer[i]).storable() by {
        if i < files.len() {
            assert(files[i].storable());
        }
    }
    assert forall|i: int, j: int| 0 <= i < j < longer.len() implies longer[i].id < longer[j].id by {
        if j == files.len() && i < files.len() - 1 {
            assert(files[i].id < files[files.len() - 1].id);
        }
    }
}

proof fn lemma_same_ids(x: Seq<LogFile>, y: Seq<LogFile>)
    requires
        x.len() == y.len(),
        forall|i: int| 0 <= i < x.len() ==> (#[trigger] x[i]).id == y[i].id,
    ensures
        forall|id: u64| #[trigger]
            among(x, x.len() as int, id) == among(y, y.len() as int, id),
{
    assert forall|id: u64| #[trigger]
        among(x, x.len() as int, id) == among(y, y.len() as int, id) by {
        if among(x, x.len() as int, id) {
            let j = choose|j: int| 0 <= j < x.len() && (#[trigger] x[j]).id == id;
            assert(y[j].id == id);
        }
        if among(y, y.len() as int, id) {
            let j = choose|j: int| 0 <= j < y.len() && (#[trigger] y[j]).id == id;
            assert(x[j].id == id);
        }
    }
}

proof fn lemma_one_more_id(files: Seq<LogFile>, file: LogFile)
    ensures
        forall|id: u64| #[trigger]
            among(files.push(file), files.push(file).len() as int, id) == (among(files, files.len() as int, id)
                || id == file.id),
{
    let longer = files.push(file);
    assert forall|id: u64| #[trigger]
        among(longer, longer.len() as int, id) == (among(files, files.len() as int, id) || id
            == file.id) by {
        if among(longer, longer.len() as int, id) {
            let j = choose|j: int| 0 <= j < longer.len() && (#[trigger] longer[j]).id == id;
            if j < files.len() {
                assert(files[j].id == id);
            }
        }
        if among(files, files.len() as int, id) {
            let j = choose|j: int| 0 <= j < files.len() && (#[trigger] files[j]).id == id;
            assert(longer[j].id == id);
        }
        assert(longer[files.len() as int].id == file.id);
    }
}

/// Whether the sources of a merge are these files.
pub open spec fn sources_are(sources: Seq<Source>, files: Seq<LogFile>) -> bool {
    &&& sources.len() == files.len()
    &&& forall|i: int|
        0 <= i < files.len() ==> (#[trigger] sources[i]).id == files[i].id && sources[i].len
            == files[i].bytes().len()
}

/// Whether a store and a merge that is under way stand for a step of the
/// merge.
pub open spec fn tracks(core: &Bitcask, merge: &Merge, m: MergeModel) -> bool {
    &&& m.inv()
    &&& core.wf()
    &&& core.index@ == m.keydir
    &&& core.writer.current_file_id == m.tail.last().id
    &&& core.writer.offset == m.tail.last().bytes().len()
    &&& ids_are(core.readers@, m.files())
    &&& merge.wf()
    &&& sources_are(merge.sources@, m.sources)
    &&& merge.next == m.next
    &&& merge.removed == m.removed
    &&& match (merge.output, m.output) {
        (Some(out), Some(file)) => out.id == file.id && out.written == file.bytes().len(),
        (None, None) => true,
        _ => false,
    }
    &&& pending_views(merge.pending@) == m.pending
    &&& forall|i: int|
        0 <= i < (m.sources + m.settled + m.unfinished()).len() ==> (#[trigger] (m.sources
            + m.settled + m.unfinished())[i]).id <= merge.last_output_id
    &&& m.tail[0].id >= merge.next_active
}

/// The files that a merge is offered are all files of the store but the active
/// one, in their order.
pub proof fn law_sealed_files(core: Bitcask, files: Seq<LogFile>)
    requires
        represents(&core, files),
    ensures
        core.readers@.filter(|id: u64| id != core.writer.current_file_id) == Seq::new(
            (files.len() - 1) as nat,
            |i: int| files[i].id,
        ),
{
    let readers = core.readers@;
    let ids = Seq::new(files.len(), |i: int| files[i].id);
    assert forall|x: u64| #[trigger] readers.contains(x) <==> ids.contains(x) by {
        if among(files, files.len() as int, x) {
            let j = choose|j: int| 0 <= j < files.len() && (#[trigger] files[j]).id == x;
            assert(ids[j] == x);
        }
        if ids.contains(x) {
            let j = choose|j: int| 0 <= j < ids.len() && ids[j] == x;
            assert(files[j].id == x);
        }
    }
    lemma_ascending_unique(readers, ids);
    let sealed = |id: u64| id != core.writer.current_file_id;
    let front = ids.drop_last();
    reveal(Seq::filter);
    assert(ids.last() == files.last().id);
    assert(ids.filter(sealed) == front.filter(sealed));
    assert forall|i: int| 0 <= i < front.len() implies sealed(#[trigger] front[i]) by {
        assert(files[i].id < files[files.len() - 1].id);
    }
    lemma_filter_all(front, sealed);
    assert(front =~= Seq::new((files.len() - 1) as nat, |i: int| files[i].id));
}

proof fn lemma_filter_all(s: Seq<u64>, keep: spec_fn(u64) -> bool)
    requires
        forall|i: int| 0 <= i < s.len() ==> keep(#[trigger] s[i]),
    ensures
        s.filter(keep) == s,
    decreases s.len(),
{
    reveal(Seq::filter);
    if s.len() > 0 {
        let front = s.drop_last();
        assert forall|i: int| 0 <= i < front.len() implies keep(#[trigger] front[i]) by {
            assert(s[i] == front[i]);
        }
        lemma_filter_all(front, keep);
        assert(keep(s[s.len() - 1]));
        assert(s.filter(keep) =~= s);
    } else {
        assert(s.filter(keep) =~= s);
    }
}

/// Two ascending sequences with the same ids are the same.
proof fn lemma_ascending_unique(a: Seq<u64>, b: Seq<u64>)
    requires
        ascending(a),
        ascending(b),
        forall|x: u64| #[trigger] a.contains(x) <==> b.contains(x),
    ensures
        a == b,
    decreases a.len(),
{
    if a.len() == 0 {
        if b.len() > 0 {
            assert(b.contains(b[0]));
            assert(!a.contains(b[0]));
        }
        assert(a =~= b);
    } else {
        assert(a.contains(a.last()));
        assert(b.len() > 0);
        assert(b.contains(b.last()));
        assert(a.contains(b.last()));
        let i = choose|i: int| 0 <= i < a.len() && a[i] == b.last();
        let j = choose|j: int| 0 <= j < b.len() && b[j] == a.last();
        assert(a.last() == b.last());
        let (x, y) = (a.drop_last(), b.drop_last());
        assert forall|v: u64| #[trigger] x.contains(v) <==> y.contains(v) by {
            if x.contains(v) {
                let k = choose|k: int| 0 <= k < x.len() && x[k] == v;
                assert(a[k] == v);
                assert(a.contains(v));
                let l = choose|l: int| 0 <= l < b.len() && b[l] == v;
                assert(a[k] < a[a.len() - 1]);
                assert(y[l] == v);
            }
            if y.contains(v) {
                let k = choose|k: int| 0 <= k < y.len() && y[k] == v;
                assert(b[k] == v);
                assert(b.contains(v));
                assert(a.contains(v));
                let l = choose|l: int| 0 <= l < a.len() && a[l] == v;
                assert(b[k] < b[b.len() - 1]);
                assert(x[l] == v);
            }
        }
        lemma_ascending_unique(x, y);
        assert(a =~= x.push(a.last()));
        assert(b =~= y.push(b.last()));
    }
}

/// A merge of the sealed files of a store is under way once it is planned and
/// the active file has moved on above the ids that it reserves. Nothing of the
/// contents has changed by then.
pub proof fn law_merge_under_way(
    before: Bitcask,
    after: Bitcask,
    merge: Merge,
    files: Seq<LogFile>,
    now: u64,
)
    requires
        represents(&before, files),
        merge.wf(),
        merge.planned(&before, merge.sources@),
        sources_are(merge.sources@, files.drop_last()),
        after.wf(),
        before.rotated(&after, merge.next_active, now),
    ensures
        ({
            let m = merge_start(
                files.drop_last(),
                seq![files.last()],
                after.index@,
                merge.next_active,
            );
            tracks(&after, &merge, m) && m.contents() == store_contents(files)
        }),
{
    let sources = files.drop_last();
    let kept = seq![files.last()];
    let m = merge_start(sources, kept, after.index@, merge.next_active);
    assert(sources + kept =~= files);
    assert forall|i: int| 0 <= i < files.len() implies (#[trigger] files[i]).id
        < merge.next_active by {
        if i < files.len() - 1 {
            assert(files[i].id < files[files.len() - 1].id);
        }
    }
    law_merge_start(sources, kept, after.index@, merge.next_active);
    let fresh = m.tail[0];
    assert(m.files() =~= files.push(fresh));
    lemma_one_more_id(files, fresh);
    assert(pending_views(merge.pending@) =~= m.pending);
    assert(m.sources + m.settled + m.unfinished() =~= files);
}

/// A write during a merge.
pub proof fn law_write_during_merge(
    before: Bitcask,
    after: Bitcask,
    merge: Merge,
    m: MergeModel,
    c: CommandView,
)
    requires
        tracks(&before, &merge, m),
        valid_files(merge_append(m, c).all_files()),
        after.wf(),
        before.appended(&after, c, c.encode().len() as usize),
    ensures
        tracks(&after, &merge, merge_append(m, c)),
        merge_append(m, c).contents() == contents_after(m.contents(), c),
{
    let next = merge_append(m, c);
    law_merge_append(m, c);
    let (x, y) = (m.files(), next.files());
    assert forall|i: int| 0 <= i < x.len() implies (#[trigger] x[i]).id == y[i].id by {}
    lemma_same_ids(x, y);
    let last = m.tail.len() - 1;
    assert(next.tail[last].cmds.drop_last() =~= m.tail[last].cmds);
    assert(next.tail.last().bytes() == m.tail.last().bytes() + c.encode());
    assert(next.tail.last().storable()) by {
        let all = next.all_files();
        assert(all[all.len() - 1] == next.tail.last());
    }
}

/// The active file moves on during a merge.
pub proof fn law_rotation_during_merge(
    before: Bitcask,
    after: Bitcask,
    merge: Merge,
    m: MergeModel,
    id: u64,
    now: u64,
)
    requires
        tracks(&before, &merge, m),
        id > m.tail.last().id,
        after.wf(),
        before.rotated(&after, id, now),
    ensures
        tracks(&after, &merge, merge_rotate(m, id)),
        merge_rotate(m, id).contents() == m.contents(),
{
    let next = merge_rotate(m, id);
    let fresh = LogFile { id, cmds: Seq::<CommandView>::empty() };
    let all = m.all_files();
    assert(next.all_files() =~= all.push(fresh));
    assert(fresh.storable());
    assert forall|i: int| 0 <= i < next.all_files().len() implies (
    #[trigger] next.all_files()[i]).storable() by {
        if i < all.len() {
            assert(all[i].storable());
        }
    }
    assert(all[all.len() - 1] == m.tail.last());
    assert forall|i: int, j: int|
        0 <= i < j < next.all_files().len() implies next.all_files()[i].id
        < next.all_files()[j].id by {
        if j == all.len() && i < all.len() - 1 {
            assert(all[i].id < all[all.len() - 1].id);
        }
    }
    law_merge_rotate(m, id);
    assert(next.files() =~= m.files().push(fresh));
    lemma_one_more_id(m.files(), fresh);
    assert(next.tail[0] == m.tail[0]);
}

/// An output is opened.
pub proof fn law_output_opened(core: Bitcask, before: Merge, after: Merge, m: MergeModel)
    requires
        tracks(&core, &before, m),
        before.action() is OpenOutput,
        after.wf(),
        before.opened(&after),
    ensures
        tracks(&core, &after, merge_open(m, after.last_output_id)),
        merge_open(m, after.last_output_id).contents() == m.contents(),
{
    let id = after.last_output_id;
    let next = merge_open(m, id);
    let out = LogFile { id, cmds: Seq::<CommandView>::empty() };
    let front = m.sources + m.settled;
    let all = m.all_files();
    let all2 = next.all_files();
    assert(m.sources + m.settled + m.unfinished() =~= front);
    assert(next.unfinished() =~= seq![out]);
    assert(all =~= front + m.tail);
    assert(all2 =~= front + seq![out] + m.tail);
    assert(out.storable());
    assert forall|i: int| 0 <= i < all2.len() implies (#[trigger] all2[i]).storable() by {
        if i < front.len() {
            assert(all[i].storable());
        } else if i > front.len() {
            assert(all[i - 1].storable());
        }
    }
    assert forall|i: int| 0 <= i < front.len() implies (#[trigger] front[i]).id < id by {
        assert((m.sources + m.settled + m.unfinished())[i].id <= before.last_output_id);
    }
    assert forall|t: int| 0 <= t < m.tail.len() implies id < (#[trigger] m.tail[t]).id by {
        if t > 0 {
            let n = front.len() as int;
            assert(all[n].id < all[n + t].id);
        }
    }
    assert forall|i: int, j: int| 0 <= i < j < all2.len() implies all2[i].id < all2[j].id by {
        let n = front.len() as int;
        if j < n {
            assert(all[i].id < all[j].id);
        } else if j == n {
            assert(front[i].id < id);
        } else if i < n {
            assert(front[i].id < id);
            assert(id < m.tail[j - n - 1].id);
        } else if i == n {
            assert(id < m.tail[j - n - 1].id);
        } else {
            assert(all[i - 1].id < all[j - 1].id);
        }
    }
    law_merge_open(m, id);
    let known = next.sources + next.settled + next.unfinished();
    assert forall|i: int| 0 <= i < known.len() implies (#[trigger] known[i]).id <= id by {
        if i < front.len() {
            assert(known[i] == front[i]);
        }
    }
}

/// What an output holds fits in memory where the sealed files together do.
proof fn lemma_output_fits(core: Bitcask, merge: Merge, m: MergeModel)
    requires
        tracks(&core, &merge, m),
        merge.action() is CopyFrom,
        merge.total() <= usize::MAX,
    ensures
        merge_copy(m).output->0.bytes().len() <= usize::MAX,
{
    let file = m.sources[m.next];
    let n = file.cmds.len() as int;
    lemma_copied_len(file, m.keydir, m.output->0, m.pending, n);
    assert(file.cmds.take(n) =~= file.cmds);
    assert(merge.sources@[m.next].len == file.bytes().len());
    lemma_source_bytes_take(merge.sources@, m.next);
    lemma_source_bytes_take(merge.sources@, m.next + 1);
}

/// A sealed file is copied from: what the merge adds to the files of the
/// output is what the model says, and the index is left alone.
pub proof fn law_file_copied(core: Bitcask, before: Merge, after: Merge, m: MergeModel)
    requires
        tracks(&core, &before, m),
        before.action() is CopyFrom,
        before.total() <= usize::MAX,
        after.wf(),
        ({
            let (state, end) = before.copy_of(core.index@, m.sources[m.next].bytes());
            before.copied(&after, state)
        }),
    ensures
        tracks(&core, &after, merge_copy(m)),
        merge_copy(m).contents() == m.contents(),
        ({
            let (state, end) = before.copy_of(core.index@, m.sources[m.next].bytes());
            let (old_out, out) = (m.output->0, merge_copy(m).output->0);
            &&& end == ScanEnd::Clean
            &&& out.bytes() == old_out.bytes() + state.records
            &&& all_hints(out) == all_hints(old_out) + state.hints
        }),
{
    let file = m.sources[m.next];
    let next = merge_copy(m);
    assert(m.all_files()[m.next] == file);
    assert(file.storable());
    lemma_output_fits(core, before, m);
    law_copy_file(file, m.keydir, m.output->0, m.pending);
    law_merge_copy(m);
    assert(next.files() == m.files());
    let (x, y) = (
        m.sources + m.settled + m.unfinished(),
        next.sources + next.settled + next.unfinished(),
    );
    let n = (m.sources + m.settled).len() as int;
    assert(x[n] == m.output->0);
    assert forall|i: int| 0 <= i < y.len() implies (#[trigger] y[i]).id
        <= after.last_output_id by {
        if i < n {
            assert(y[i] == x[i]);
        } else {
            assert(y[i] == next.output->0);
            assert(next.output->0.id == m.output->0.id) by {
                assert(after.output->0.id == next.output->0.id);
            }
        }
    }
}

/// An output is finished.
pub proof fn law_output_finished(
    core: Bitcask,
    core_after: Bitcask,
    before: Merge,
    after: Merge,
    m: MergeModel,
)
    requires
        tracks(&core, &before, m),
        before.action() is FinishOutput,
        after.wf(),
        core_after.wf(),
        before.finished_into(&core, &after, &core_after),
    ensures
        tracks(&core_after, &after, merge_finish(m)),
        merge_finish(m).contents() == m.contents(),
{
    let next = merge_finish(m);
    let out = m.output->0;
    law_merge_finish(m);
    assert(pending_views(after.pending@) =~= next.pending);
    assert(next.sources + next.settled + next.unfinished() =~= m.sources + m.settled
        + m.unfinished());
    let (x, y) = (m.files(), next.files());
    let n = (m.sources.skip(m.removed) + m.settled).len() as int;
    assert forall|id: u64| #[trigger]
        among(y, y.len() as int, id) == (among(x, x.len() as int, id) || id == out.id) by {
        if among(y, y.len() as int, id) {
            let j = choose|j: int| 0 <= j < y.len() && (#[trigger] y[j]).id == id;
            if j < n {
                assert(x[j].id == id);
            } else if j > n {
                assert(x[j - 1].id == id);
            }
        }
        if among(x, x.len() as int, id) {
            let j = choose|j: int| 0 <= j < x.len() && (#[trigger] x[j]).id == id;
            if j < n {
                assert(y[j].id == id);
            } else {
                assert(y[j + 1].id == id);
            }
        }
        assert(y[n].id == out.id);
    }
}

/// A sealed file is removed.
pub proof fn law_source_removed(
    core: Bitcask,
    core_after: Bitcask,
    before: Merge,
    after: Merge,
    m: MergeModel,
)
    requires
        tracks(&core, &before, m),
        before.action() is RemoveSource,
        after.wf(),
        core_after.wf(),
        before.removed_from(&core, &after, &core_after),
    ensures
        tracks(&core_after, &after, merge_remove(m)),
        merge_remove(m).contents() == m.contents(),
{
    let next = merge_remove(m);
    let gone = m.sources[m.removed];
    law_merge_files_valid(m);
    law_merge_remove(m);
    let (x, y) = (m.files(), next.files());
    assert(x =~= seq![gone] + y);
    assert forall|id: u64| #[trigger]
        among(y, y.len() as int, id) == (among(x, x.len() as int, id) && id != gone.id) by {
        if among(y, y.len() as int, id) {
            let j = choose|j: int| 0 <= j < y.len() && (#[trigger] y[j]).id == id;
            assert(x[j + 1].id == id);
            assert(x[0].id < x[j + 1].id);
        }
        if among(x, x.len() as int, id) && id != gone.id {
            let j = choose|j: int| 0 <= j < x.len() && (#[trigger] x[j]).id == id;
            assert(y[j - 1].id == id);
        }
    }
}

/// In the middle of a merge, too, a store keeps its files.
pub proof fn law_tracks_represents(core: Bitcask, merge: Merge, m: MergeModel)
    requires
        tracks(&core, &merge, m),
    ensures
        represents(&core, m.files()),
{
    law_merge_files_valid(m);
}

/// A merge that has nothing left to do leaves a store with the files that the
/// model says: none of those that were merged is among them.
pub proof fn law_merge_done(core: Bitcask, merge: Merge, m: MergeModel)
    requires
        tracks(&core, &merge, m),
        merge.action() is Complete,
    ensures
        represents(&core, m.files()),
        m.files() == m.settled + m.tail,
{
    law_merge_files_valid(m);
    assert(m.files() =~= m.settled + m.tail);
}

/// Writes never make the count of stale bytes smaller, so what a merge has
/// counted at its start can be subtracted at its end.
pub proof fn law_stale_bytes_grow(before: Bitcask, after: Bitcask, c: CommandView, len: usize)
    requires
        before.has_room(c.key(), len as int),
        before.appended(&after, c, len),
    ensures
        after.writer.stale_bytes_count >= before.writer.stale_bytes_count,
{
}

} // verus!
