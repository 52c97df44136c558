//! What a merge does to the files of a store, and why nothing is lost: at
//! every step the files amount to the same contents, and the index is faithful
//! to them.
use vstd::prelude::*;

use crate::bitcask::keydir_after;
use crate::command::{law_decode_encode, law_encode_len, CommandView};
use crate::error::KvsErrorView;
use crate::index_value::{encode_hint, IndexValue};
use crate::loader::{record_at, replay_files, FileImageView, ReplayState, ScanEnd};
use crate::log_model::{
    all_cmds, among, append_to_last, contents, contents_after, faithful, law_append, law_rotate,
    lemma_log_bytes_split, lemma_place, stands_at, store_contents, valid_files, LogFile,
};
use crate::merge::{apply_pending, copy_live, sits_at, CopyState, MergeOutput, PendingView};
use crate::recovery::{all_hints, damaged, hint_bytes, incomplete, law_reopen, mentions, shows_store};

verus! {

/// The value that commands leave a key with.
pub open spec fn value_of(cmds: Seq<CommandView>, key: Seq<u8>) -> Option<Seq<u8>> {
    if contents(cmds).contains_key(key) {
        Some(contents(cmds)[key])
    } else {
        None
    }
}

/// The value of a key is that of the later commands if they mention it, else
/// that of the earlier ones: what is written later wins.
pub proof fn law_later_wins(a: Seq<CommandView>, b: Seq<CommandView>, key: Seq<u8>)
    ensures
        value_of(a + b, key) == (if mentions(b, key) {
            value_of(b, key)
        } else {
            value_of(a, key)
        }),
    decreases b.len(),
{
    if b.len() == 0 {
        assert(a + b =~= a);
    } else {
        let front = b.drop_last();
        assert((a + b).drop_last() =~= a + front);
        law_later_wins(a, front, key);
        if b.last().key() == key {
            assert(b[b.len() - 1].key() == key);
        } else if mentions(front, key) {
            let i = choose|i: int| 0 <= i < front.len() && (#[trigger] front[i]).key() == key;
            assert(b[i].key() == key);
        } else if mentions(b, key) {
            let i = choose|i: int| 0 <= i < b.len() && (#[trigger] b[i]).key() == key;
            assert(front[i].key() == key);
        }
    }
}

proof fn lemma_unmentioned(cmds: Seq<CommandView>, key: Seq<u8>)
    requires
        !mentions(cmds, key),
    ensures
        value_of(cmds, key) is None,
{
    law_later_wins(Seq::empty(), cmds, key);
    assert(Seq::<CommandView>::empty() + cmds =~= cmds);
}

proof fn lemma_same_contents(a: Seq<CommandView>, b: Seq<CommandView>)
    requires
        forall|key: Seq<u8>| #[trigger] value_of(a, key) == value_of(b, key),
    ensures
        contents(a) == contents(b),
{
    assert forall|key: Seq<u8>| contents(a).contains_key(key) == contents(b).contains_key(key) by {
        assert(value_of(a, key) == value_of(b, key));
    }
    assert forall|key: Seq<u8>| contents(a).contains_key(key) implies contents(a)[key] == contents(
        b,
    )[key] by {
        assert(value_of(a, key) == value_of(b, key));
    }
    assert(contents(a) =~= contents(b));
}

proof fn lemma_all_cmds_concat(x: Seq<LogFile>, y: Seq<LogFile>)
    ensures
        all_cmds(x + y) == all_cmds(x) + all_cmds(y),
    decreases y.len(),
{
    if y.len() == 0 {
        assert(x + y =~= x);
        assert(all_cmds(x) + all_cmds(y) =~= all_cmds(x));
    } else {
        assert((x + y).drop_last() =~= x + y.drop_last());
        lemma_all_cmds_concat(x, y.drop_last());
        assert(all_cmds(x + y) =~= all_cmds(x) + all_cmds(y));
    }
}

proof fn lemma_one_file(file: LogFile)
    ensures
        all_cmds(seq![file]) == file.cmds,
{
    let none = seq![file].drop_last();
    assert(none =~= Seq::<LogFile>::empty());
    assert(all_cmds(none) =~= Seq::<CommandView>::empty());
    assert(all_cmds(seq![file]) =~= file.cmds);
}

/// Whether a file is another one, or that one with more commands behind it.
pub open spec fn extends(longer: LogFile, file: LogFile) -> bool {
    &&& longer.id == file.id
    &&& file.cmds.len() <= longer.cmds.len()
    &&& longer.cmds.take(file.cmds.len() as int) == file.cmds
}

spec fn has_file(files: Seq<LogFile>, file: LogFile) -> bool {
    exists|g: int| 0 <= g < files.len() && extends(#[trigger] files[g], file)
}

/// Whether all files are still there, perhaps longer.
spec fn keeps(before: Seq<LogFile>, after: Seq<LogFile>) -> bool {
    forall|f: int| 0 <= f < before.len() ==> has_file(after, #[trigger] before[f])
}

proof fn lemma_stands_still(
    before: Seq<LogFile>,
    after: Seq<LogFile>,
    entry: IndexValue,
    c: CommandView,
)
    requires
        keeps(before, after),
        stands_at(before, entry, c),
    ensures
        stands_at(after, entry, c),
{
    let (f, i) = choose|f: int, i: int|
        {
            &&& 0 <= f < before.len()
            &&& 0 <= i < before[f].cmds.len()
            &&& #[trigger] before[f].place(i) == entry
            &&& before[f].cmds[i] == c
        };
    let file = before[f];
    assert(has_file(after, file));
    let g = choose|g: int| 0 <= g < after.len() && extends(#[trigger] after[g], file);
    assert(after[g].cmds.take(i) =~= file.cmds.take(i));
    assert(after[g].cmds[i] == after[g].cmds.take(file.cmds.len() as int)[i]);
    assert(after[g].place(i) == entry);
}

proof fn lemma_faithful_still(
    before: Seq<LogFile>,
    after: Seq<LogFile>,
    keydir: Map<Seq<u8>, IndexValue>,
)
    requires
        keeps(before, after),
        faithful(before, keydir),
        store_contents(before) == store_contents(after),
    ensures
        faithful(after, keydir),
{
    assert forall|key: Seq<u8>| #[trigger] keydir.contains_key(key) implies stands_at(
        after,
        keydir[key],
        CommandView::Put { ts: keydir[key].ts, key, value: store_contents(after)[key] },
    ) by {
        lemma_stands_still(
            before,
            after,
            keydir[key],
            CommandView::Put { ts: keydir[key].ts, key, value: store_contents(before)[key] },
        );
    }
}

pub(crate) proof fn lemma_offset_grows(file: LogFile, i: int, j: int)
    requires
        0 <= i <= j <= file.cmds.len(),
    ensures
        file.offset(i) <= file.offset(j) <= file.bytes().len(),
        i < j ==> file.offset(i) < file.offset(j),
    decreases j - i,
{
    lemma_log_bytes_split(file.cmds, j);
    if i < j {
        lemma_place(file, i);
        lemma_offset_grows(file, i + 1, j);
    }
}

/// One place holds one record.
proof fn lemma_one_record(
    files: Seq<LogFile>,
    a: IndexValue,
    c: CommandView,
    b: IndexValue,
    d: CommandView,
)
    requires
        valid_files(files),
        stands_at(files, a, c),
        stands_at(files, b, d),
        a.file_id == b.file_id,
        a.offset == b.offset,
    ensures
        c == d,
        a == b,
{
    let (f, i) = choose|f: int, i: int|
        {
            &&& 0 <= f < files.len()
            &&& 0 <= i < files[f].cmds.len()
            &&& #[trigger] files[f].place(i) == a
            &&& files[f].cmds[i] == c
        };
    let (g, j) = choose|g: int, j: int|
        {
            &&& 0 <= g < files.len()
            &&& 0 <= j < files[g].cmds.len()
            &&& #[trigger] files[g].place(j) == b
            &&& files[g].cmds[j] == d
        };
    assert(f == g);
    let file = files[f];
    assert(file.storable());
    lemma_offset_grows(file, i, file.cmds.len() as int);
    lemma_offset_grows(file, j, file.cmds.len() as int);
    if i < j {
        lemma_offset_grows(file, i, j);
    } else if j < i {
        lemma_offset_grows(file, j, i);
    }
}

/// Whether the record of a command of a file is copied: it is what its key
/// stands at.
pub open spec fn is_live(file: LogFile, keydir: Map<Seq<u8>, IndexValue>, i: int) -> bool {
    let c = file.cmds[i];
    c is Put && sits_at(keydir, c.key(), file.id, file.offset(i) as u64)
}

/// An output, and the keys that were copied to it, behind the first `i`
/// commands of a file.
pub open spec fn copied(
    file: LogFile,
    keydir: Map<Seq<u8>, IndexValue>,
    out: LogFile,
    pending: Seq<PendingView>,
    i: int,
) -> (LogFile, Seq<PendingView>)
    decreases i,
{
    if i <= 0 {
        (out, pending)
    } else {
        let (o, p) = copied(file, keydir, out, pending, i - 1);
        if is_live(file, keydir, i - 1) {
            let c = file.cmds[i - 1];
            let longer = o.push(c);
            let update = PendingView {
                key: c.key(),
                previous_value: file.place(i - 1),
                new: longer.place(o.cmds.len() as int),
            };
            (longer, p.push(update))
        } else {
            (o, p)
        }
    }
}

/// What copying the first `i` commands of a file adds to the files of an
/// output.
pub open spec fn copy_state(
    file: LogFile,
    keydir: Map<Seq<u8>, IndexValue>,
    out: LogFile,
    pending: Seq<PendingView>,
    i: int,
) -> CopyState {
    let (o, p) = copied(file, keydir, out, pending, i);
    CopyState {
        output: MergeOutput { id: o.id, written: o.bytes().len() as u64 },
        records: o.bytes().skip(out.bytes().len() as int),
        hints: all_hints(o).skip(all_hints(out).len() as int),
        pending: p,
    }
}

proof fn lemma_longer_hints(longer: LogFile, file: LogFile, i: int)
    requires
        extends(longer, file),
        0 <= i <= file.cmds.len(),
    ensures
        hint_bytes(longer, i) == hint_bytes(file, i),
    decreases i,
{
    if i > 0 {
        lemma_longer_hints(longer, file, i - 1);
        let n = file.cmds.len() as int;
        assert(longer.cmds.take(n)[i - 1] == longer.cmds[i - 1]);
        assert(longer.cmds.take(i - 1) =~= file.cmds.take(i - 1)) by {
            assert(longer.cmds.take(i - 1) =~= longer.cmds.take(n).take(i - 1));
        }
    }
}

/// What a longer file starts with.
proof fn lemma_longer(longer: LogFile, file: LogFile)
    requires
        extends(longer, file),
    ensures
        file.bytes().len() <= longer.bytes().len(),
        longer.bytes() == file.bytes() + longer.bytes().skip(file.bytes().len() as int),
        all_hints(file).len() <= all_hints(longer).len(),
        all_hints(longer) == all_hints(file) + all_hints(longer).skip(all_hints(file).len() as int),
{
    let n = file.cmds.len() as int;
    lemma_log_bytes_split(longer.cmds, n);
    assert(longer.bytes() =~= file.bytes() + longer.bytes().skip(file.bytes().len() as int));
    lemma_longer_hints(longer, file, n);
    crate::recovery::lemma_hint_bytes_prefix(longer, n, longer.cmds.len() as int);
    assert(all_hints(longer) =~= all_hints(longer).take(all_hints(file).len() as int) + all_hints(
        longer,
    ).skip(all_hints(file).len() as int));
}

proof fn lemma_copied_grows(
    file: LogFile,
    keydir: Map<Seq<u8>, IndexValue>,
    out: LogFile,
    pending: Seq<PendingView>,
    i: int,
    j: int,
)
    requires
        0 <= i <= j,
    ensures
        extends(
            copied(file, keydir, out, pending, j).0,
            copied(file, keydir, out, pending, i).0,
        ),
    decreases j,
{
    let a = copied(file, keydir, out, pending, i).0;
    let b = copied(file, keydir, out, pending, j).0;
    if i == j {
        assert(b.cmds.take(a.cmds.len() as int) =~= a.cmds);
    } else {
        lemma_copied_grows(file, keydir, out, pending, i, j - 1);
        let o = copied(file, keydir, out, pending, j - 1).0;
        assert(b.cmds.take(a.cmds.len() as int) =~= o.cmds.take(a.cmds.len() as int));
    }
}

/// What is copied is no longer than what it is copied from.
pub(crate) proof fn lemma_copied_len(
    file: LogFile,
    keydir: Map<Seq<u8>, IndexValue>,
    out: LogFile,
    pending: Seq<PendingView>,
    i: int,
)
    requires
        0 <= i <= file.cmds.len(),
    ensures
        copied(file, keydir, out, pending, i).0.bytes().len() <= out.bytes().len() + file.offset(i),
        copied(file, keydir, out, pending, i).0.id == out.id,
    decreases i,
{
    if i > 0 {
        lemma_copied_len(file, keydir, out, pending, i - 1);
        lemma_place(file, i - 1);
        let o = copied(file, keydir, out, pending, i - 1).0;
        assert(o.push(file.cmds[i - 1]).cmds.drop_last() =~= o.cmds);
    }
}

/// One step of copying adds what the model says.
proof fn lemma_copy_step(
    file: LogFile,
    keydir: Map<Seq<u8>, IndexValue>,
    out: LogFile,
    pending: Seq<PendingView>,
    i: int,
)
    requires
        file.storable(),
        0 <= i < file.cmds.len(),
        copied(file, keydir, out, pending, i + 1).0.bytes().len() <= usize::MAX,
    ensures
        copy_state(file, keydir, out, pending, i).copy(
            keydir,
            file.id,
            file.offset(i) as u64,
            file.cmds[i].encode(),
            file.cmds[i],
        ) == copy_state(file, keydir, out, pending, i + 1),
{
    let c = file.cmds[i];
    let (o, p) = copied(file, keydir, out, pending, i);
    if is_live(file, keydir, i) {
        let longer = o.push(c);
        let n = o.cmds.len() as int;
        assert(longer.cmds.drop_last() =~= o.cmds);
        assert(longer.cmds.take(n) =~= o.cmds);
        assert(extends(longer, o));
        lemma_copied_grows(file, keydir, out, pending, 0, i);
        lemma_longer(o, out);
        lemma_longer_hints(longer, o, n);
        assert(longer.bytes() == o.bytes() + c.encode());
        assert(longer.bytes().skip(out.bytes().len() as int) =~= o.bytes().skip(
            out.bytes().len() as int,
        ) + c.encode());
        let hint = encode_hint(c.key(), longer.place(n));
        assert(all_hints(longer) == all_hints(o) + hint);
        assert(all_hints(longer).skip(all_hints(out).len() as int) =~= all_hints(o).skip(
            all_hints(out).len() as int,
        ) + hint);
        lemma_place(file, i);
        lemma_log_bytes_split(file.cmds, i + 1);
    }
}

proof fn lemma_copy_from(
    file: LogFile,
    keydir: Map<Seq<u8>, IndexValue>,
    out: LogFile,
    pending: Seq<PendingView>,
    i: int,
)
    requires
        file.storable(),
        0 <= i <= file.cmds.len(),
        copied(file, keydir, out, pending, file.cmds.len() as int).0.bytes().len() <= usize::MAX,
    ensures
        copy_live(
            file.id,
            file.bytes(),
            file.offset(i),
            keydir,
            copy_state(file, keydir, out, pending, i),
        ) == (
            copy_state(file, keydir, out, pending, file.cmds.len() as int),
            ScanEnd::Clean,
        ),
    decreases file.cmds.len() - i,
{
    let n = file.cmds.len() as int;
    let data = file.bytes();
    let at = file.offset(i);
    if i == n {
        assert(file.cmds.take(i) =~= file.cmds);
    } else {
        let c = file.cmds[i];
        lemma_place(file, i);
        law_encode_len(c);
        assert(data.subrange(at, at + 8) =~= c.encode().take(8)) by {
            assert(data.subrange(at, at + 8) =~= data.subrange(at, at + c.encode().len()).take(8));
        }
        crate::recovery::lemma_stated_len(c, data, at);
        assert(record_at(data, at) =~= c.encode());
        law_decode_encode(c, Seq::empty());
        assert(c.encode() + Seq::<u8>::empty() =~= c.encode());
        lemma_copied_grows(file, keydir, out, pending, i + 1, n);
        lemma_longer(
            copied(file, keydir, out, pending, n).0,
            copied(file, keydir, out, pending, i + 1).0,
        );
        lemma_copy_step(file, keydir, out, pending, i);
        lemma_copy_from(file, keydir, out, pending, i + 1);
    }
}

/// Copying a file adds to the output the records of that file that keys stand
/// at, in their order, and to its hint file their hints.
pub proof fn law_copy_file(
    file: LogFile,
    keydir: Map<Seq<u8>, IndexValue>,
    out: LogFile,
    pending: Seq<PendingView>,
)
    requires
        file.storable(),
        copied(file, keydir, out, pending, file.cmds.len() as int).0.bytes().len() <= usize::MAX,
    ensures
        ({
            let start = CopyState {
                output: MergeOutput { id: out.id, written: out.bytes().len() as u64 },
                records: Seq::empty(),
                hints: Seq::empty(),
                pending,
            };
            let (state, end) = copy_live(file.id, file.bytes(), 0, keydir, start);
            let (longer, updates) = copied(file, keydir, out, pending, file.cmds.len() as int);
            &&& end == ScanEnd::Clean
            &&& state.output == (MergeOutput {
                id: longer.id,
                written: longer.bytes().len() as u64,
            })
            &&& longer.bytes() == out.bytes() + state.records
            &&& all_hints(longer) == all_hints(out) + state.hints
            &&& state.pending == updates
        }),
{
    let n = file.cmds.len() as int;
    let first = copy_state(file, keydir, out, pending, 0);
    assert(first.records =~= Seq::empty());
    assert(first.hints =~= Seq::empty());
    assert(file.cmds.take(0) =~= Seq::<CommandView>::empty());
    lemma_copy_from(file, keydir, out, pending, 0);
    lemma_copied_grows(file, keydir, out, pending, 0, n);
    lemma_longer(copied(file, keydir, out, pending, n).0, out);
}

/// A store in the middle of a merge.
pub struct MergeModel {
    /// The sealed files that are merged, also those that are gone by now.
    pub sources: Seq<LogFile>,
    /// The files behind those that stay as they are: those that were not
    /// merged, and the outputs that were finished.
    pub settled: Seq<LogFile>,
    /// The output that is being written. It does not count among the files of
    /// the store yet.
    pub output: Option<LogFile>,
    /// The files that were written since the merge started; the last is active.
    pub tail: Seq<LogFile>,
    /// Where the keys stand.
    pub keydir: Map<Seq<u8>, IndexValue>,
    /// The keys that were copied to the output that is being written.
    pub pending: Seq<PendingView>,
    /// How many of the sealed files were copied from.
    pub next: int,
    /// How many of the sealed files are gone.
    pub removed: int,
}

/// Whether commands only repeat values: each gives a key the value that it has
/// in `base`, unless the key is mentioned later on.
pub open spec fn repeats(
    cmds: Seq<CommandView>,
    base: Seq<CommandView>,
    later: Seq<CommandView>,
) -> bool {
    forall|i: int|
        0 <= i < cmds.len() ==> (#[trigger] cmds[i]) is Put && (mentions(later, cmds[i].key())
            || value_of(base, cmds[i].key()) == cmds[i].value())
}

/// Whether a pending update leads from the record of a command in one of the
/// files to its copy.
pub open spec fn leads_to_copy(files: Seq<LogFile>, out: LogFile, p: PendingView) -> bool {
    exists|x: int|
        {
            &&& 0 <= x < out.cmds.len()
            &&& #[trigger] out.place(x) == p.new
            &&& out.cmds[x] is Put
            &&& out.cmds[x].key() == p.key
            &&& stands_at(files, p.previous_value, out.cmds[x])
        }
}

/// Whether a key that stands at a place will be moved away from there.
pub open spec fn will_move(pending: Seq<PendingView>, key: Seq<u8>, entry: IndexValue) -> bool {
    exists|q: int|
        {
            &&& 0 <= q < pending.len()
            &&& (#[trigger] pending[q]).key == key
            &&& pending[q].previous_value.file_id == entry.file_id
            &&& pending[q].previous_value.offset == entry.offset
        }
}

impl MergeModel {
    /// The output that is being written, if there is one.
    pub open spec fn unfinished(self) -> Seq<LogFile> {
        match self.output {
            Some(out) => seq![out],
            None => Seq::empty(),
        }
    }

    /// All files, also those that are gone or unfinished.
    pub open spec fn all_files(self) -> Seq<LogFile> {
        self.sources + self.settled + self.unfinished() + self.tail
    }

    /// The files of the store.
    pub open spec fn files(self) -> Seq<LogFile> {
        self.sources.skip(self.removed) + self.settled + self.tail
    }

    /// What every step of a merge, and every write meanwhile, keeps.
    pub open spec fn inv(self) -> bool {
        &&& 0 <= self.next <= self.sources.len()
        &&& 0 <= self.removed <= self.sources.len()
        &&& self.removed > 0 ==> self.next == self.sources.len() && self.output is None
        &&& self.tail.len() > 0
        &&& valid_files(self.all_files())
        &&& faithful(self.files(), self.keydir)
        &&& match self.output {
            Some(out) => {
                &&& repeats(out.cmds, all_cmds(self.sources + self.settled), all_cmds(self.tail))
                &&& forall|q: int|
                    0 <= q < self.pending.len() ==> leads_to_copy(
                        self.sources,
                        out,
                        #[trigger] self.pending[q],
                    )
            },
            None => self.pending.len() == 0,
        }
        &&& forall|key: Seq<u8>| #[trigger]
            self.keydir.contains_key(key) && among(
                self.sources,
                self.next,
                self.keydir[key].file_id,
            ) ==> will_move(self.pending, key, self.keydir[key])
    }

    /// The contents of the store.
    pub open spec fn contents(self) -> Map<Seq<u8>, Seq<u8>> {
        store_contents(self.files())
    }
}

/// A choice among files in order is in order.
proof fn lemma_valid_part(x: Seq<LogFile>, n: int, mid: Seq<LogFile>, y: Seq<LogFile>)
    requires
        0 <= n <= x.len(),
        valid_files(x + mid + y),
    ensures
        valid_files(x.skip(n) + y),
{
    let all = x + mid + y;
    let part = x.skip(n) + y;
    assert forall|i: int| 0 <= i < part.len() implies (#[trigger] part[i]).storable() by {
        let at = if i < x.len() - n {
            i + n
        } else {
            i + n + mid.len()
        };
        assert(all[at] == part[i]);
    }
    assert forall|i: int, j: int| 0 <= i < j < part.len() implies part[i].id < part[j].id by {
        let at = if i < x.len() - n {
            i + n
        } else {
            i + n + mid.len()
        };
        let to = if j < x.len() - n {
            j + n
        } else {
            j + n + mid.len()
        };
        assert(all[at] == part[i]);
        assert(all[to] == part[j]);
    }
}

/// The files of the store are in order at every step.
pub proof fn law_merge_files_valid(m: MergeModel)
    requires
        m.inv(),
    ensures
        valid_files(m.files()),
        m.files().len() > 0,
        m.files().last() == m.tail.last(),
{
    let x = m.sources + m.settled;
    assert(m.all_files() =~= x + m.unfinished() + m.tail);
    lemma_valid_part(x, m.removed, m.unfinished(), m.tail);
    assert(m.files() =~= x.skip(m.removed) + m.tail);
}

/// The tail has none of the ids of the sealed files.
proof fn lemma_tail_ids(m: MergeModel, t: int)
    requires
        valid_files(m.all_files()),
        0 <= t < m.tail.len(),
    ensures
        !among(m.sources, m.sources.len() as int, m.tail[t].id),
{
    let all = m.all_files();
    let at = m.sources.len() + m.settled.len() + m.unfinished().len() + t;
    assert(all[at] == m.tail[t]);
    assert forall|j: int| 0 <= j < m.sources.len() implies (#[trigger] m.sources[j]).id
        != m.tail[t].id by {
        assert(all[j] == m.sources[j]);
        assert(all[j].id < all[at].id);
    }
}

/// A merge that starts, and the file that is active from then on.
pub open spec fn merge_start(
    sources: Seq<LogFile>,
    kept: Seq<LogFile>,
    keydir: Map<Seq<u8>, IndexValue>,
    next_active: u64,
) -> MergeModel {
    MergeModel {
        sources,
        settled: kept,
        output: None,
        tail: seq![LogFile { id: next_active, cmds: Seq::empty() }],
        keydir,
        pending: Seq::empty(),
        next: 0,
        removed: 0,
    }
}

/// A merge of the first files of a store can start once the active file has
/// moved on. That changes nothing of the contents.
pub proof fn law_merge_start(
    sources: Seq<LogFile>,
    kept: Seq<LogFile>,
    keydir: Map<Seq<u8>, IndexValue>,
    next_active: u64,
)
    requires
        valid_files(sources + kept),
        faithful(sources + kept, keydir),
        forall|i: int|
            0 <= i < (sources + kept).len() ==> (#[trigger] (sources + kept)[i]).id < next_active,
    ensures
        merge_start(sources, kept, keydir, next_active).inv(),
        merge_start(sources, kept, keydir, next_active).contents() == store_contents(
            sources + kept,
        ),
{
    let files = sources + kept;
    let fresh = LogFile { id: next_active, cmds: Seq::<CommandView>::empty() };
    let m = merge_start(sources, kept, keydir, next_active);
    law_rotate(files, keydir, next_active);
    assert(m.files() =~= files.push(fresh));
    assert(m.all_files() =~= files.push(fresh));
    assert(fresh.storable());
    assert forall|i: int| 0 <= i < m.all_files().len() implies (
    #[trigger] m.all_files()[i]).storable() by {
        if i < files.len() {
            assert(files[i].storable());
        }
    }
}

/// A write during a merge.
pub open spec fn merge_append(m: MergeModel, c: CommandView) -> MergeModel {
    MergeModel {
        tail: append_to_last(m.tail, c),
        keydir: keydir_after(
            m.keydir,
            c,
            m.tail.last().id,
            m.tail.last().bytes().len() as u64,
            c.encode().len() as usize,
        ),
        ..m
    }
}

proof fn lemma_mentions_more(a: Seq<CommandView>, b: Seq<CommandView>, key: Seq<u8>)
    requires
        mentions(a, key),
    ensures
        mentions(a + b, key),
        mentions(b + a, key),
{
    let i = choose|i: int| 0 <= i < a.len() && (#[trigger] a[i]).key() == key;
    assert((a + b)[i].key() == key);
    assert((b + a)[b.len() + i].key() == key);
}

/// Writing during a merge does what it does at any other time.
pub proof fn law_merge_append(m: MergeModel, c: CommandView)
    requires
        m.inv(),
        valid_files(merge_append(m, c).all_files()),
    ensures
        merge_append(m, c).inv(),
        merge_append(m, c).contents() == contents_after(m.contents(), c),
{
    let after = merge_append(m, c);
    let files = m.files();
    law_merge_files_valid(m);
    assert(after.files() =~= append_to_last(files, c));
    let x = m.sources + m.settled;
    assert(after.all_files() =~= x + m.unfinished() + after.tail);
    lemma_valid_part(x, m.removed, m.unfinished(), after.tail);
    assert(after.files() =~= x.skip(m.removed) + after.tail);
    law_append(files, m.keydir, c);
    assert(after.tail.drop_last() =~= m.tail.drop_last());
    assert(all_cmds(after.tail) =~= all_cmds(m.tail) + seq![c]);
    if let Some(out) = m.output {
        assert forall|i: int| 0 <= i < out.cmds.len() implies (#[trigger] out.cmds[i]) is Put && (
        mentions(all_cmds(after.tail), out.cmds[i].key()) || value_of(
            all_cmds(m.sources + m.settled),
            out.cmds[i].key(),
        ) == out.cmds[i].value()) by {
            if mentions(all_cmds(m.tail), out.cmds[i].key()) {
                lemma_mentions_more(all_cmds(m.tail), seq![c], out.cmds[i].key());
            }
        }
    }
    assert forall|key: Seq<u8>| #[trigger]
        after.keydir.contains_key(key) && among(
            after.sources,
            after.next,
            after.keydir[key].file_id,
        ) implies will_move(after.pending, key, after.keydir[key]) by {
        if c is Put && key == c.key() {
            lemma_tail_ids(m, m.tail.len() - 1);
            let j = choose|j: int|
                0 <= j < after.next && (#[trigger] after.sources[j]).id
                    == after.keydir[key].file_id;
            assert(m.sources[j].id == m.tail.last().id);
        } else {
            assert(m.keydir.contains_key(key));
        }
    }
}

/// The active file moves on during a merge.
pub open spec fn merge_rotate(m: MergeModel, id: u64) -> MergeModel {
    MergeModel { tail: m.tail.push(LogFile { id, cmds: Seq::empty() }), ..m }
}

/// Moving on to another file during a merge changes nothing of the contents.
pub proof fn law_merge_rotate(m: MergeModel, id: u64)
    requires
        m.inv(),
        valid_files(merge_rotate(m, id).all_files()),
    ensures
        merge_rotate(m, id).inv(),
        merge_rotate(m, id).contents() == m.contents(),
{
    let after = merge_rotate(m, id);
    let fresh = LogFile { id, cmds: Seq::<CommandView>::empty() };
    assert(after.files() =~= m.files().push(fresh));
    law_rotate(m.files(), m.keydir, id);
    assert(after.tail.drop_last() =~= m.tail);
    assert(all_cmds(after.tail) =~= all_cmds(m.tail));
    assert(after.unfinished() == m.unfinished());
}

/// An output is opened.
pub open spec fn merge_open(m: MergeModel, id: u64) -> MergeModel {
    MergeModel { output: Some(LogFile { id, cmds: Seq::empty() }), ..m }
}

/// Opening an output, whose id is above those of the files that are merged and
/// below that of the active file, changes nothing of the contents.
pub proof fn law_merge_open(m: MergeModel, id: u64)
    requires
        m.inv(),
        m.output is None,
        m.next < m.sources.len(),
        valid_files(merge_open(m, id).all_files()),
    ensures
        merge_open(m, id).inv(),
        merge_open(m, id).contents() == m.contents(),
{
    let after = merge_open(m, id);
    assert(after.files() == m.files());
    assert(after.pending.len() == 0);
}

/// The next sealed file is copied from.
pub open spec fn merge_copy(m: MergeModel) -> MergeModel {
    let file = m.sources[m.next];
    let (out, pending) = copied(
        file,
        m.keydir,
        m.output->0,
        m.pending,
        file.cmds.len() as int,
    );
    MergeModel { output: Some(out), pending, next: m.next + 1, ..m }
}

/// The record of a command stands at its place.
proof fn lemma_stands(files: Seq<LogFile>, f: int, i: int)
    requires
        0 <= f < files.len(),
        0 <= i < files[f].cmds.len(),
    ensures
        stands_at(files, files[f].place(i), files[f].cmds[i]),
{
}

/// What a record that a key stands at says is what the contents say.
proof fn lemma_live_value(m: MergeModel, i: int)
    requires
        m.inv(),
        m.next < m.sources.len(),
        0 <= i < m.sources[m.next].cmds.len(),
        is_live(m.sources[m.next], m.keydir, i),
    ensures
        ({
            let c = m.sources[m.next].cmds[i];
            mentions(all_cmds(m.tail), c.key()) || value_of(
                all_cmds(m.sources + m.settled),
                c.key(),
            ) == c.value()
        }),
{
    let file = m.sources[m.next];
    let c = file.cmds[i];
    let key = c.key();
    let files = m.files();
    law_merge_files_valid(m);
    assert(m.sources.skip(0) =~= m.sources);
    assert(files[m.next] == file);
    lemma_stands(files, m.next, i);
    assert(m.keydir.contains_key(key));
    let d = CommandView::Put { ts: m.keydir[key].ts, key, value: m.contents()[key] };
    lemma_one_record(files, m.keydir[key], d, file.place(i), c);
    assert(value_of(all_cmds(files), key) == c.value());
    assert(files =~= (m.sources + m.settled) + m.tail);
    lemma_all_cmds_concat(m.sources + m.settled, m.tail);
    law_later_wins(all_cmds(m.sources + m.settled), all_cmds(m.tail), key);
}

proof fn lemma_leads_still(files: Seq<LogFile>, out: LogFile, longer: LogFile, p: PendingView)
    requires
        leads_to_copy(files, out, p),
        extends(longer, out),
    ensures
        leads_to_copy(files, longer, p),
{
    let x = choose|x: int|
        {
            &&& 0 <= x < out.cmds.len()
            &&& #[trigger] out.place(x) == p.new
            &&& out.cmds[x] is Put
            &&& out.cmds[x].key() == p.key
            &&& stands_at(files, p.previous_value, out.cmds[x])
        };
    let n = out.cmds.len() as int;
    assert(longer.cmds.take(n)[x] == longer.cmds[x]);
    assert(longer.cmds.take(x) =~= longer.cmds.take(n).take(x));
    assert(longer.place(x) == p.new);
}

/// What was copied of the first `i` commands repeats values, leads to copies,
/// and covers the keys that stand there.
proof fn lemma_copied_sound(m: MergeModel, i: int)
    requires
        m.inv(),
        m.output is Some,
        m.next < m.sources.len(),
        0 <= i <= m.sources[m.next].cmds.len(),
    ensures
        ({
            let file = m.sources[m.next];
            let (out, pending) = copied(file, m.keydir, m.output->0, m.pending, i);
            &&& out.id == m.output->0.id
            &&& forall|x: int| 0 <= x < out.cmds.len() ==> (#[trigger] out.cmds[x]).storable()
            &&& repeats(out.cmds, all_cmds(m.sources + m.settled), all_cmds(m.tail))
            &&& forall|q: int|
                0 <= q < pending.len() ==> leads_to_copy(m.sources, out, #[trigger] pending[q])
            &&& m.pending.len() <= pending.len()
            &&& pending.take(m.pending.len() as int) == m.pending
            &&& forall|j: int|
                0 <= j < i && #[trigger] is_live(file, m.keydir, j) ==> will_move(
                    pending,
                    file.cmds[j].key(),
                    file.place(j),
                )
        }),
    decreases i,
{
    let file = m.sources[m.next];
    let base = all_cmds(m.sources + m.settled);
    let later = all_cmds(m.tail);
    let (out, pending) = copied(file, m.keydir, m.output->0, m.pending, i);
    if i == 0 {
        assert(pending.take(m.pending.len() as int) =~= m.pending);
        let at = m.sources.len() + m.settled.len();
        assert(m.all_files()[at as int] == out);
        assert(out.storable());
    } else {
        lemma_copied_sound(m, i - 1);
        let (o, p) = copied(file, m.keydir, m.output->0, m.pending, i - 1);
        if is_live(file, m.keydir, i - 1) {
            let c = file.cmds[i - 1];
            assert(m.all_files()[m.next] == file);
            assert(file.storable());
            assert(out.cmds =~= o.cmds.push(c));
            assert(out.cmds.take(o.cmds.len() as int) =~= o.cmds);
            lemma_live_value(m, i - 1);
            assert forall|x: int| 0 <= x < out.cmds.len() implies (
            #[trigger] out.cmds[x]).storable() by {
                if x < o.cmds.len() {
                    assert(out.cmds[x] == o.cmds[x]);
                }
            }
            assert forall|x: int| 0 <= x < out.cmds.len() implies (#[trigger] out.cmds[x]) is Put
                && (mentions(later, out.cmds[x].key()) || value_of(base, out.cmds[x].key())
                == out.cmds[x].value()) by {
                if x < o.cmds.len() {
                    assert(out.cmds[x] == o.cmds[x]);
                }
            }
            assert forall|q: int| 0 <= q < pending.len() implies leads_to_copy(
                m.sources,
                out,
                #[trigger] pending[q],
            ) by {
                if q < p.len() {
                    assert(pending[q] == p[q]);
                    lemma_leads_still(m.sources, o, out, p[q]);
                } else {
                    let x = o.cmds.len() as int;
                    lemma_stands(m.sources, m.next, i - 1);
                    assert(out.place(x) == pending[q].new);
                }
            }
            assert(pending.take(m.pending.len() as int) =~= p.take(m.pending.len() as int));
            assert forall|j: int|
                0 <= j < i && #[trigger] is_live(file, m.keydir, j) implies will_move(
                pending,
                file.cmds[j].key(),
                file.place(j),
            ) by {
                if j < i - 1 {
                    let q = choose|q: int|
                        {
                            &&& 0 <= q < p.len()
                            &&& (#[trigger] p[q]).key == file.cmds[j].key()
                            &&& p[q].previous_value.file_id == file.place(j).file_id
                            &&& p[q].previous_value.offset == file.place(j).offset
                        };
                    assert(pending[q] == p[q]);
                } else {
                    assert(pending[p.len() as int].key == c.key());
                }
            }
        }
    }
}

/// Copying from a sealed file changes nothing of the contents: what is copied
/// repeats values, and every key that stands in that file will move.
pub proof fn law_merge_copy(m: MergeModel)
    requires
        m.inv(),
        m.output is Some,
        m.next < m.sources.len(),
        merge_copy(m).output->0.bytes().len() <= usize::MAX,
    ensures
        merge_copy(m).inv(),
        merge_copy(m).contents() == m.contents(),
{
    let after = merge_copy(m);
    let file = m.sources[m.next];
    let n = file.cmds.len() as int;
    let out = after.output->0;
    lemma_copied_sound(m, n);
    assert(after.files() == m.files());
    let (all, all2) = (m.all_files(), after.all_files());
    let at = (m.sources.len() + m.settled.len()) as int;
    assert(all2 =~= all.update(at, out));
    assert forall|i: int| 0 <= i < all2.len() implies (#[trigger] all2[i]).storable() by {
        if i != at {
            assert(all2[i] == all[i]);
        }
    }
    assert forall|i: int, j: int| 0 <= i < j < all2.len() implies all2[i].id < all2[j].id by {
        assert(all[at].id == out.id);
        assert(all[i].id < all[j].id);
    }
    assert forall|key: Seq<u8>| #[trigger]
        after.keydir.contains_key(key) && among(
            after.sources,
            after.next,
            after.keydir[key].file_id,
        ) implies will_move(after.pending, key, after.keydir[key]) by {
        let entry = m.keydir[key];
        let j = choose|j: int| 0 <= j < after.next && (#[trigger] after.sources[j]).id
            == entry.file_id;
        if j < m.next {
            assert(m.sources[j].id == entry.file_id);
            let q = choose|q: int|
                {
                    &&& 0 <= q < m.pending.len()
                    &&& (#[trigger] m.pending[q]).key == key
                    &&& m.pending[q].previous_value.file_id == entry.file_id
                    &&& m.pending[q].previous_value.offset == entry.offset
                };
            assert(after.pending.take(m.pending.len() as int)[q] == after.pending[q]);
        } else {
            let files = m.files();
            law_merge_files_valid(m);
            assert(m.sources.skip(0) =~= m.sources);
            assert(files[m.next] == file);
            let (f, i) = choose|f: int, i: int|
                {
                    &&& 0 <= f < files.len()
                    &&& 0 <= i < files[f].cmds.len()
                    &&& #[trigger] files[f].place(i) == entry
                    &&& files[f].cmds[i] == (CommandView::Put {
                        ts: entry.ts,
                        key,
                        value: m.contents()[key],
                    })
                };
            assert(files[f].id == files[m.next].id);
            assert(f == m.next);
            assert(is_live(file, m.keydir, i));
        }
    }
}

/// Commands that repeat values leave the values as they are.
proof fn lemma_repeats(
    cmds: Seq<CommandView>,
    base: Seq<CommandView>,
    later: Seq<CommandView>,
    key: Seq<u8>,
)
    requires
        repeats(cmds, base, later),
        !mentions(later, key),
        mentions(cmds, key),
    ensures
        value_of(cmds, key) == value_of(base, key),
    decreases cmds.len(),
{
    if cmds.len() > 0 {
        let front = cmds.drop_last();
        let last = cmds[cmds.len() - 1];
        assert(last is Put);
        if last.key() != key {
            assert forall|i: int| 0 <= i < front.len() implies (#[trigger] front[i]) is Put && (
            mentions(later, front[i].key()) || value_of(base, front[i].key())
                == front[i].value()) by {
                assert(cmds[i] == front[i]);
            }
            let i = choose|i: int| 0 <= i < cmds.len() && (#[trigger] cmds[i]).key() == key;
            assert(front[i].key() == key);
            lemma_repeats(front, base, later, key);
        }
    }
}

/// The output is finished: it counts among the files of the store, and the
/// keys that still stand where they were copied from move over.
pub open spec fn merge_finish(m: MergeModel) -> MergeModel {
    MergeModel {
        settled: m.settled.push(m.output->0),
        output: None,
        keydir: apply_pending(m.keydir, m.pending),
        pending: Seq::empty(),
        ..m
    }
}

/// An output that is there, but that no key stands in yet, changes nothing of
/// the contents: not even a crash at this point matters.
pub proof fn law_output_repeats(m: MergeModel)
    requires
        m.inv(),
        m.output is Some,
    ensures
        faithful(merge_finish(m).files(), m.keydir),
        merge_finish(m).contents() == m.contents(),
{
    let out = m.output->0;
    let files = m.files();
    let after = merge_finish(m).files();
    let front = m.sources + m.settled;
    let base = all_cmds(front);
    let later = all_cmds(m.tail);
    assert(m.sources.skip(0) =~= m.sources);
    assert(files =~= front + m.tail);
    assert(after =~= front + (seq![out] + m.tail));
    lemma_all_cmds_concat(front, m.tail);
    lemma_all_cmds_concat(front, seq![out] + m.tail);
    lemma_all_cmds_concat(seq![out], m.tail);
    lemma_one_file(out);
    assert forall|key: Seq<u8>| #[trigger] value_of(all_cmds(files), key) == value_of(
        all_cmds(after),
        key,
    ) by {
        law_later_wins(base, later, key);
        law_later_wins(base, out.cmds + later, key);
        law_later_wins(out.cmds, later, key);
        if mentions(later, key) {
            lemma_mentions_more(later, out.cmds, key);
        } else if mentions(out.cmds, key) {
            lemma_mentions_more(out.cmds, later, key);
            lemma_repeats(out.cmds, base, later, key);
        } else if mentions(out.cmds + later, key) {
            let i = choose|i: int|
                0 <= i < (out.cmds + later).len() && (#[trigger] (out.cmds + later)[i]).key()
                    == key;
            if i < out.cmds.len() {
                assert(out.cmds[i].key() == key);
            } else {
                assert(later[i - out.cmds.len()].key() == key);
            }
        }
    }
    lemma_same_contents(all_cmds(files), all_cmds(after));
    assert forall|f: int| 0 <= f < files.len() implies has_file(after, #[trigger] files[f]) by {
        let g = if f < front.len() {
            f
        } else {
            f + 1
        };
        assert(after[g] == files[f]);
        assert(after[g].cmds.take(files[f].cmds.len() as int) =~= files[f].cmds);
    }
    lemma_faithful_still(files, after, m.keydir);
}

/// Where the keys stand once a pending update is applied.
spec fn moved_by(keydir: Map<Seq<u8>, IndexValue>, p: PendingView) -> Map<Seq<u8>, IndexValue> {
    if sits_at(keydir, p.key, p.previous_value.file_id, p.previous_value.offset) {
        keydir.insert(p.key, p.new)
    } else {
        keydir
    }
}

/// The files behind a finished output are in order.
proof fn lemma_finish_valid(m: MergeModel)
    requires
        m.inv(),
        m.output is Some,
    ensures
        valid_files(merge_finish(m).files()),
        keeps(m.sources, merge_finish(m).files()),
{
    let done = merge_finish(m);
    let files = done.files();
    let front = done.sources + done.settled;
    assert(done.all_files() =~= m.all_files());
    assert(done.all_files() =~= front + done.unfinished() + done.tail);
    lemma_valid_part(front, 0, done.unfinished(), done.tail);
    assert(files =~= front.skip(0) + done.tail);
    assert forall|f: int| 0 <= f < m.sources.len() implies has_file(
        files,
        #[trigger] m.sources[f],
    ) by {
        assert(files[f] == m.sources[f]);
        assert(files[f].cmds.take(m.sources[f].cmds.len() as int) =~= m.sources[f].cmds);
    }
}

/// Moving a key over to its copy keeps the index faithful.
proof fn lemma_move_faithful(m: MergeModel, keydir: Map<Seq<u8>, IndexValue>, p: PendingView)
    requires
        m.inv(),
        m.output is Some,
        faithful(merge_finish(m).files(), keydir),
        leads_to_copy(m.sources, m.output->0, p),
    ensures
        faithful(merge_finish(m).files(), moved_by(keydir, p)),
{
    let out = m.output->0;
    let files = merge_finish(m).files();
    let moved = moved_by(keydir, p);
    let key = p.key;
    if sits_at(keydir, key, p.previous_value.file_id, p.previous_value.offset) {
        let x = choose|x: int|
            {
                &&& 0 <= x < out.cmds.len()
                &&& #[trigger] out.place(x) == p.new
                &&& out.cmds[x] is Put
                &&& out.cmds[x].key() == p.key
                &&& stands_at(m.sources, p.previous_value, out.cmds[x])
            };
        let c = out.cmds[x];
        let d = CommandView::Put { ts: keydir[key].ts, key, value: store_contents(files)[key] };
        lemma_finish_valid(m);
        lemma_stands_still(m.sources, files, p.previous_value, c);
        assert(keydir.contains_key(key));
        lemma_one_record(files, keydir[key], d, p.previous_value, c);
        let at = (m.sources.len() + m.settled.len()) as int;
        assert(files[at] == out);
        lemma_stands(files, at, x);
        assert(moved.dom() =~= keydir.dom());
        assert forall|k: Seq<u8>| #[trigger] moved.contains_key(k) implies stands_at(
            files,
            moved[k],
            CommandView::Put { ts: moved[k].ts, key: k, value: store_contents(files)[k] },
        ) by {
            if k != key {
                assert(keydir.contains_key(k));
            }
        }
    }
}

/// Whether every key that stands in one of the files that were copied from
/// will move.
spec fn all_will_move(
    m: MergeModel,
    keydir: Map<Seq<u8>, IndexValue>,
    pending: Seq<PendingView>,
) -> bool {
    forall|key: Seq<u8>| #[trigger]
        keydir.contains_key(key) && among(m.sources, m.next, keydir[key].file_id) ==> will_move(
            pending,
            key,
            keydir[key],
        )
}

/// A key that was moved over stands in none of those files, and the others
/// wait for the updates that are left.
proof fn lemma_move_covered(
    m: MergeModel,
    keydir: Map<Seq<u8>, IndexValue>,
    pending: Seq<PendingView>,
)
    requires
        m.inv(),
        m.output is Some,
        pending.len() > 0,
        leads_to_copy(m.sources, m.output->0, pending[0]),
        all_will_move(m, keydir, pending),
    ensures
        all_will_move(m, moved_by(keydir, pending[0]), pending.skip(1)),
{
    let out = m.output->0;
    let p = pending[0];
    let rest = pending.skip(1);
    let moved = moved_by(keydir, p);
    assert(p.new.file_id == out.id) by {
        let x = choose|x: int| 0 <= x < out.cmds.len() && #[trigger] out.place(x) == p.new;
        assert(out.place(x) == p.new);
    }
    assert forall|key: Seq<u8>| #[trigger]
        moved.contains_key(key) && among(m.sources, m.next, moved[key].file_id)
            implies will_move(rest, key, moved[key]) by {
        if key == p.key && sits_at(
            keydir,
            p.key,
            p.previous_value.file_id,
            p.previous_value.offset,
        ) {
            let j = choose|j: int| 0 <= j < m.next && (#[trigger] m.sources[j]).id == out.id;
            let all = m.all_files();
            let at = (m.sources.len() + m.settled.len()) as int;
            assert(all[j] == m.sources[j]);
            assert(all[at] == out);
            assert(all[j].id < all[at].id);
        } else {
            assert(keydir.contains_key(key));
            let q = choose|q: int|
                {
                    &&& 0 <= q < pending.len()
                    &&& (#[trigger] pending[q]).key == key
                    &&& pending[q].previous_value.file_id == keydir[key].file_id
                    &&& pending[q].previous_value.offset == keydir[key].offset
                };
            assert(q > 0);
            assert(rest[q - 1] == pending[q]);
        }
    }
}

/// The keys move over one by one.
proof fn lemma_apply_pending(m: MergeModel, n: int)
    requires
        m.inv(),
        m.output is Some,
        0 <= n <= m.pending.len(),
    ensures
        faithful(merge_finish(m).files(), apply_pending(m.keydir, m.pending.take(n))),
        all_will_move(m, apply_pending(m.keydir, m.pending.take(n)), m.pending.skip(n)),
    decreases n,
{
    if n == 0 {
        law_output_repeats(m);
        assert(m.pending.take(0) =~= Seq::<PendingView>::empty());
        assert(m.pending.skip(0) =~= m.pending);
    } else {
        let before = apply_pending(m.keydir, m.pending.take(n - 1));
        lemma_apply_pending(m, n - 1);
        assert(m.pending.take(n).drop_last() =~= m.pending.take(n - 1));
        assert(m.pending.take(n).last() == m.pending[n - 1]);
        assert(leads_to_copy(m.sources, m.output->0, m.pending[n - 1]));
        assert(m.pending.skip(n - 1)[0] == m.pending[n - 1]);
        assert(m.pending.skip(n - 1).skip(1) =~= m.pending.skip(n));
        lemma_move_faithful(m, before, m.pending[n - 1]);
        lemma_move_covered(m, before, m.pending.skip(n - 1));
    }
}

/// Finishing an output changes nothing of the contents, and no key stands in
/// the files that were copied from any more.
pub proof fn law_merge_finish(m: MergeModel)
    requires
        m.inv(),
        m.output is Some,
    ensures
        merge_finish(m).inv(),
        merge_finish(m).contents() == m.contents(),
        forall|key: Seq<u8>| #[trigger]
            merge_finish(m).keydir.contains_key(key) ==> !among(
                m.sources,
                m.next,
                merge_finish(m).keydir[key].file_id,
            ),
{
    let after = merge_finish(m);
    let n = m.pending.len() as int;
    law_output_repeats(m);
    lemma_apply_pending(m, n);
    assert(m.pending.take(n) =~= m.pending);
    assert(m.pending.skip(n) =~= Seq::<PendingView>::empty());
    assert(after.all_files() =~= m.all_files());
}

/// A sealed file is removed.
pub open spec fn merge_remove(m: MergeModel) -> MergeModel {
    MergeModel { removed: m.removed + 1, ..m }
}

proof fn lemma_stands_mentioned(files: Seq<LogFile>, f: int, i: int)
    requires
        0 <= f < files.len(),
        0 <= i < files[f].cmds.len(),
    ensures
        mentions(all_cmds(files), files[f].cmds[i].key()),
    decreases files.len(),
{
    let key = files[f].cmds[i].key();
    let front = files.drop_last();
    if f == files.len() - 1 {
        assert(mentions(files.last().cmds, key));
        lemma_mentions_more(files.last().cmds, all_cmds(front), key);
    } else {
        lemma_stands_mentioned(front, f, i);
        lemma_mentions_more(all_cmds(front), files.last().cmds, key);
    }
}

/// Removing a sealed file, once all were copied from and all outputs are
/// finished, changes nothing of the contents.
pub proof fn law_merge_remove(m: MergeModel)
    requires
        m.inv(),
        m.next == m.sources.len(),
        m.output is None,
        m.removed < m.sources.len(),
    ensures
        merge_remove(m).inv(),
        merge_remove(m).contents() == m.contents(),
{
    let after = merge_remove(m);
    let gone = m.sources[m.removed];
    let files = m.files();
    let kept = after.files();
    assert(files =~= seq![gone] + kept);
    lemma_all_cmds_concat(seq![gone], kept);
    // a key that is in the index stands in a file that stays
    assert forall|key: Seq<u8>| #[trigger] m.keydir.contains_key(key) implies stands_at(
        kept,
        m.keydir[key],
        CommandView::Put { ts: m.keydir[key].ts, key, value: m.contents()[key] },
    ) by {
        let (f, i) = choose|f: int, i: int|
            {
                &&& 0 <= f < files.len()
                &&& 0 <= i < files[f].cmds.len()
                &&& #[trigger] files[f].place(i) == m.keydir[key]
                &&& files[f].cmds[i] == (CommandView::Put {
                    ts: m.keydir[key].ts,
                    key,
                    value: m.contents()[key],
                })
            };
        if f == 0 {
            assert(m.sources[m.removed].id == m.keydir[key].file_id);
            assert(among(m.sources, m.next, m.keydir[key].file_id));
        }
        assert(kept[f - 1] == files[f]);
        assert(kept[f - 1].place(i) == m.keydir[key]);
    }
    assert forall|key: Seq<u8>| #[trigger] value_of(all_cmds(files), key) == value_of(
        all_cmds(kept),
        key,
    ) by {
        law_later_wins(all_cmds(seq![gone]), all_cmds(kept), key);
        if !mentions(all_cmds(kept), key) {
            lemma_unmentioned(all_cmds(kept), key);
            if value_of(all_cmds(files), key) is Some {
                assert(m.keydir.contains_key(key));
                let (f, i) = choose|f: int, i: int|
                    {
                        &&& 0 <= f < kept.len()
                        &&& 0 <= i < kept[f].cmds.len()
                        &&& #[trigger] kept[f].place(i) == m.keydir[key]
                        &&& kept[f].cmds[i] == (CommandView::Put {
                            ts: m.keydir[key].ts,
                            key,
                            value: m.contents()[key],
                        })
                    };
                lemma_stands_mentioned(kept, f, i);
            }
        }
    }
    lemma_same_contents(all_cmds(files), all_cmds(kept));
    assert(after.all_files() == m.all_files());
}

/// A crash at any point of a merge loses nothing: opening the store again, over
/// whatever files are there by then, gives the same contents. The output that
/// is being written is not among those files; a last write that was cut short
/// is cut off.
pub proof fn law_crash_during_merge(
    m: MergeModel,
    images: Seq<FileImageView>,
    tail: Seq<u8>,
)
    requires
        m.inv(),
        shows_store(images, m.files(), tail),
    ensures
        ({
            let start = ReplayState { keydir: Map::empty(), stale: 0, offset: 0 };
            let (after, res) = replay_files(images, m.tail.last().id, start);
            &&& res is Ok
            &&& faithful(m.files(), after.keydir)
            &&& after.keydir.dom() == m.contents().dom()
        }),
{
    law_merge_files_valid(m);
    law_reopen(images, m.files(), tail);
}

/// The records of a file are copied one by one, whatever stands behind them.
proof fn lemma_copy_front(
    file: LogFile,
    keydir: Map<Seq<u8>, IndexValue>,
    tail: Seq<u8>,
    i: int,
    state: CopyState,
)
    requires
        file.storable(),
        file.bytes().len() + tail.len() <= usize::MAX,
        0 <= i <= file.cmds.len(),
    ensures
        exists|s: CopyState|
            copy_live(file.id, file.bytes() + tail, file.offset(i), keydir, state)
                == #[trigger] copy_live(
                file.id,
                file.bytes() + tail,
                file.bytes().len() as int,
                keydir,
                s,
            ),
    decreases file.cmds.len() - i,
{
    let data = file.bytes() + tail;
    let at = file.offset(i);
    if i == file.cmds.len() {
        assert(file.cmds.take(i) =~= file.cmds);
        assert(copy_live(file.id, data, at, keydir, state) == copy_live(
            file.id,
            data,
            file.bytes().len() as int,
            keydir,
            state,
        ));
    } else {
        let c = file.cmds[i];
        lemma_place(file, i);
        law_encode_len(c);
        assert(data.subrange(at, at + c.encode().len()) =~= c.encode());
        assert(data.subrange(at, at + 8) =~= c.encode().take(8)) by {
            assert(data.subrange(at, at + 8) =~= data.subrange(at, at + c.encode().len()).take(8));
        }
        crate::recovery::lemma_stated_len(c, data, at);
        assert(record_at(data, at) =~= c.encode());
        law_decode_encode(c, Seq::empty());
        assert(c.encode() + Seq::<u8>::empty() =~= c.encode());
        lemma_copy_front(
            file,
            keydir,
            tail,
            i + 1,
            state.copy(keydir, file.id, at as u64, record_at(data, at), c),
        );
    }
}

/// A file that ends in a torn record, or holds a damaged one, is not merged.
pub proof fn law_merge_refuses_damage(
    file: LogFile,
    keydir: Map<Seq<u8>, IndexValue>,
    tail: Seq<u8>,
    e: KvsErrorView,
    state: CopyState,
)
    requires
        file.storable(),
        file.bytes().len() + tail.len() <= usize::MAX,
    ensures
        tail.len() > 0 && incomplete(tail) ==> copy_live(
            file.id,
            file.bytes() + tail,
            0,
            keydir,
            state,
        ).1 == ScanEnd::Torn(file.bytes().len() as int),
        damaged(tail, e) ==> copy_live(file.id, file.bytes() + tail, 0, keydir, state).1
            == ScanEnd::Bad(e),
{
    let data = file.bytes() + tail;
    let at = file.bytes().len() as int;
    assert(file.cmds.take(0) =~= Seq::<CommandView>::empty());
    lemma_copy_front(file, keydir, tail, 0, state);
    assert(data.skip(at) =~= tail);
    assert(tail.skip(0) =~= tail);
}

} // verus!
