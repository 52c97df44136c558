//! What the files of a store mean: the log as a sequence of commands, the
//! contents that they amount to, and what it takes for an index to be faithful
//! to them.
use vstd::prelude::*;
use vstd::utf8::{decode_utf8, encode_utf8, valid_utf8};

use crate::bitcask::{keydir_after, value_in};
use crate::command::{law_decode_encode, law_encode_len, CommandView};
use crate::error::KvsErrorView;
use crate::index_value::IndexValue;

verus! {

/// The bytes of a data file that holds these commands.
pub open spec fn log_bytes(cmds: Seq<CommandView>) -> Seq<u8>
    decreases cmds.len(),
{
    if cmds.len() == 0 {
        Seq::empty()
    } else {
        log_bytes(cmds.drop_last()) + cmds.last().encode()
    }
}

/// A data file, as the commands that it holds.
pub struct LogFile {
    pub id: u64,
    pub cmds: Seq<CommandView>,
}

impl LogFile {
    /// The bytes of the file.
    pub open spec fn bytes(self) -> Seq<u8> {
        log_bytes(self.cmds)
    }

    /// Where the record of a command starts.
    pub open spec fn offset(self, i: int) -> int {
        log_bytes(self.cmds.take(i)).len() as int
    }

    /// Where the record of a command stands.
    pub open spec fn place(self, i: int) -> IndexValue {
        IndexValue {
            file_id: self.id,
            ts: self.cmds[i].ts(),
            offset: self.offset(i) as u64,
            len: self.cmds[i].encode().len() as usize,
        }
    }

    /// The file with one more command.
    pub open spec fn push(self, c: CommandView) -> LogFile {
        LogFile { id: self.id, cmds: self.cmds.push(c) }
    }

    /// The length fields can hold the lengths, and the file fits in memory.
    pub open spec fn storable(self) -> bool {
        &&& forall|i: int| 0 <= i < self.cmds.len() ==> (#[trigger] self.cmds[i]).storable()
        &&& self.bytes().len() <= usize::MAX
    }
}

/// The commands of files, one file behind the other.
pub open spec fn all_cmds(files: Seq<LogFile>) -> Seq<CommandView>
    decreases files.len(),
{
    if files.len() == 0 {
        Seq::empty()
    } else {
        all_cmds(files.drop_last()) + files.last().cmds
    }
}

/// What a command makes of the contents of a store.
pub open spec fn contents_after(
    contents: Map<Seq<u8>, Seq<u8>>,
    c: CommandView,
) -> Map<Seq<u8>, Seq<u8>> {
    match c {
        CommandView::Put { key, value, .. } => contents.insert(key, value),
        CommandView::Rm { key, .. } => contents.remove(key),
    }
}

/// The contents that commands amount to, in the order in which they are given.
pub open spec fn contents(cmds: Seq<CommandView>) -> Map<Seq<u8>, Seq<u8>>
    decreases cmds.len(),
{
    if cmds.len() == 0 {
        Map::empty()
    } else {
        contents_after(contents(cmds.drop_last()), cmds.last())
    }
}

/// The contents of a store that has these files.
pub open spec fn store_contents(files: Seq<LogFile>) -> Map<Seq<u8>, Seq<u8>> {
    contents(all_cmds(files))
}

/// The files are in the order of their ids, and each can be stored.
pub open spec fn valid_files(files: Seq<LogFile>) -> bool {
    &&& forall|i: int, j: int| 0 <= i < j < files.len() ==> files[i].id < files[j].id
    &&& forall|i: int| 0 <= i < files.len() ==> (#[trigger] files[i]).storable()
}

/// Whether one of the first `n` files has an id.
pub open spec fn among(files: Seq<LogFile>, n: int, id: u64) -> bool {
    exists|j: int| 0 <= j < n && (#[trigger] files[j]).id == id
}

/// Whether the record of a command stands at a place.
pub open spec fn stands_at(files: Seq<LogFile>, entry: IndexValue, c: CommandView) -> bool {
    exists|f: int, i: int|
        {
            &&& 0 <= f < files.len()
            &&& 0 <= i < files[f].cmds.len()
            &&& #[trigger] files[f].place(i) == entry
            &&& files[f].cmds[i] == c
        }
}

/// Whether an index is faithful to the files: it has exactly the keys that the
/// contents have, and for each of them the place of a record with its value.
pub open spec fn faithful(files: Seq<LogFile>, keydir: Map<Seq<u8>, IndexValue>) -> bool {
    &&& keydir.dom() == store_contents(files).dom()
    &&& forall|key: Seq<u8>| #[trigger]
        keydir.contains_key(key) ==> stands_at(
            files,
            keydir[key],
            CommandView::Put { ts: keydir[key].ts, key, value: store_contents(files)[key] },
        )
}

/// The files with one more command in the last of them.
pub open spec fn append_to_last(files: Seq<LogFile>, c: CommandView) -> Seq<LogFile> {
    files.update(files.len() - 1, files.last().push(c))
}

/// The bytes of a log are those of its front and those of its rest.
pub(crate) proof fn lemma_log_bytes_split(cmds: Seq<CommandView>, i: int)
    requires
        0 <= i <= cmds.len(),
    ensures
        log_bytes(cmds) == log_bytes(cmds.take(i)) + log_bytes(cmds.skip(i)),
    decreases cmds.len(),
{
    if i == cmds.len() {
        assert(cmds.take(i) =~= cmds);
        assert(log_bytes(cmds) =~= log_bytes(cmds) + log_bytes(cmds.skip(i)));
    } else {
        lemma_log_bytes_split(cmds.drop_last(), i);
        assert(cmds.drop_last().take(i) =~= cmds.take(i));
        assert(cmds.drop_last().skip(i) =~= cmds.skip(i).drop_last());
        assert(log_bytes(cmds) =~= log_bytes(cmds.take(i)) + log_bytes(cmds.skip(i)));
    }
}

/// The record of a command stands where the file says it stands.
pub(crate) proof fn lemma_place(file: LogFile, i: int)
    requires
        0 <= i < file.cmds.len(),
    ensures
        file.offset(i) + file.cmds[i].encode().len() == file.offset(i + 1),
        file.offset(i + 1) <= file.bytes().len(),
        file.bytes().subrange(file.offset(i), file.offset(i + 1)) == file.cmds[i].encode(),
        file.cmds[i].encode().len() > 0,
{
    lemma_log_bytes_split(file.cmds, i + 1);
    assert(file.cmds.take(i + 1).drop_last() =~= file.cmds.take(i));
    assert(file.bytes().subrange(file.offset(i), file.offset(i + 1)) =~= file.cmds[i].encode());
    law_encode_len(file.cmds[i]);
}

/// Reading the bytes at the place of a key gives the value of that key. The
/// bytes of a key that holds text are read as that text.
pub proof fn law_read(files: Seq<LogFile>, keydir: Map<Seq<u8>, IndexValue>, key: Seq<u8>, f: int)
    requires
        valid_files(files),
        faithful(files, keydir),
        store_contents(files).contains_key(key),
        0 <= f < files.len(),
        files[f].id == keydir[key].file_id,
    ensures
        ({
            let entry = keydir[key];
            let value = store_contents(files)[key];
            &&& entry.offset + entry.len <= files[f].bytes().len()
            &&& value_in(files[f].bytes().subrange(entry.offset as int, entry.offset + entry.len))
                == (if valid_utf8(value) {
                Ok::<Option<Seq<char>>, KvsErrorView>(Some(decode_utf8(value)))
            } else {
                Err(KvsErrorView::Utf8(value))
            })
        }),
{
    let entry = keydir[key];
    let value = store_contents(files)[key];
    let c = CommandView::Put { ts: entry.ts, key, value };
    assert(keydir.contains_key(key));
    let (g, i) = choose|g: int, i: int|
        {
            &&& 0 <= g < files.len()
            &&& 0 <= i < files[g].cmds.len()
            &&& #[trigger] files[g].place(i) == entry
            &&& files[g].cmds[i] == c
        };
    assert(g == f);
    let file = files[f];
    lemma_place(file, i);
    law_encode_len(c);
    assert(c.storable());
    let buf = file.bytes().subrange(entry.offset as int, entry.offset + entry.len);
    assert(buf == c.encode());
    law_decode_encode(c, Seq::empty());
    assert(c.encode() + Seq::<u8>::empty() =~= c.encode());
    assert(buf.skip(buf.len() - value.len()) =~= value);
}

/// Every key of a faithful index has its record in one of the files.
pub proof fn law_entry_has_file(
    files: Seq<LogFile>,
    keydir: Map<Seq<u8>, IndexValue>,
    key: Seq<u8>,
)
    requires
        faithful(files, keydir),
        keydir.contains_key(key),
    ensures
        exists|f: int| 0 <= f < files.len() && #[trigger] files[f].id == keydir[key].file_id,
{
    let (f, i) = choose|f: int, i: int|
        {
            &&& 0 <= f < files.len()
            &&& 0 <= i < files[f].cmds.len()
            &&& #[trigger] files[f].place(i) == keydir[key]
            &&& files[f].cmds[i] == (CommandView::Put {
                ts: keydir[key].ts,
                key,
                value: store_contents(files)[key],
            })
        };
    assert(files[f].id == keydir[key].file_id);
}

/// Writing a record at the end of the last file, and entering it, keeps the
/// index faithful and changes the contents as the command says.
pub proof fn law_append(
    files: Seq<LogFile>,
    keydir: Map<Seq<u8>, IndexValue>,
    c: CommandView,
)
    requires
        files.len() > 0,
        valid_files(append_to_last(files, c)),
        faithful(files, keydir),
    ensures
        faithful(
            append_to_last(files, c),
            keydir_after(
                keydir,
                c,
                files.last().id,
                files.last().bytes().len() as u64,
                c.encode().len() as usize,
            ),
        ),
        store_contents(append_to_last(files, c)) == contents_after(store_contents(files), c),
{
    let last = files.len() - 1;
    let after = append_to_last(files, c);
    let file = after[last];
    let keydir2 = keydir_after(
        keydir,
        c,
        files.last().id,
        files.last().bytes().len() as u64,
        c.encode().len() as usize,
    );
    assert(after.drop_last() =~= files.drop_last());
    assert(all_cmds(after) =~= all_cmds(files).push(c));
    assert(all_cmds(after).drop_last() =~= all_cmds(files));
    assert(store_contents(after) == contents_after(store_contents(files), c));
    assert(keydir2.dom() =~= store_contents(after).dom());
    assert forall|key: Seq<u8>| #[trigger] keydir2.contains_key(key) implies stands_at(
        after,
        keydir2[key],
        CommandView::Put { ts: keydir2[key].ts, key, value: store_contents(after)[key] },
    ) by {
        if c is Put && key == c.key() {
            let n = files.last().cmds.len() as int;
            assert(file.cmds.take(n) =~= files.last().cmds);
            assert(after[last].place(n) == keydir2[key]);
        } else {
            assert(keydir.contains_key(key));
            let (f, i) = choose|f: int, i: int|
                {
                    &&& 0 <= f < files.len()
                    &&& 0 <= i < files[f].cmds.len()
                    &&& #[trigger] files[f].place(i) == keydir[key]
                    &&& files[f].cmds[i] == (CommandView::Put {
                        ts: keydir[key].ts,
                        key,
                        value: store_contents(files)[key],
                    })
                };
            assert(after[f].cmds.take(i) =~= files[f].cmds.take(i));
            assert(after[f].place(i) == keydir2[key]);
        }
    }
}

/// Moving on to another, empty file keeps the index faithful and the contents
/// as they are.
pub proof fn law_rotate(files: Seq<LogFile>, keydir: Map<Seq<u8>, IndexValue>, id: u64)
    requires
        faithful(files, keydir),
    ensures
        faithful(files.push(LogFile { id, cmds: Seq::empty() }), keydir),
        store_contents(files.push(LogFile { id, cmds: Seq::empty() })) == store_contents(files),
{
    let after = files.push(LogFile { id, cmds: Seq::empty() });
    assert(after.drop_last() =~= files);
    assert(all_cmds(after) =~= all_cmds(files));
    assert forall|key: Seq<u8>| #[trigger] keydir.contains_key(key) implies stands_at(
        after,
        keydir[key],
        CommandView::Put { ts: keydir[key].ts, key, value: store_contents(after)[key] },
    ) by {
        let (f, i) = choose|f: int, i: int|
            {
                &&& 0 <= f < files.len()
                &&& 0 <= i < files[f].cmds.len()
                &&& #[trigger] files[f].place(i) == keydir[key]
                &&& files[f].cmds[i] == (CommandView::Put {
                    ts: keydir[key].ts,
                    key,
                    value: store_contents(files)[key],
                })
            };
        assert(after[f].place(i) == keydir[key]);
    }
}

/// The place of a record that is appended to the last file.
pub open spec fn appended_at(files: Seq<LogFile>, c: CommandView) -> IndexValue {
    IndexValue {
        file_id: files.last().id,
        ts: c.ts(),
        offset: files.last().bytes().len() as u64,
        len: c.encode().len() as usize,
    }
}

/// A value that was written is read back, and other keys keep theirs.
pub proof fn law_get_after_set(
    files: Seq<LogFile>,
    keydir: Map<Seq<u8>, IndexValue>,
    key: Seq<char>,
    value: Seq<char>,
    ts: u64,
    other: Seq<u8>,
)
    requires
        files.len() > 0,
        faithful(files, keydir),
        valid_files(
            append_to_last(
                files,
                CommandView::Put { ts, key: encode_utf8(key), value: encode_utf8(value) },
            ),
        ),
    ensures
        ({
            let k = encode_utf8(key);
            let c = CommandView::Put { ts, key: k, value: encode_utf8(value) };
            let entry = appended_at(files, c);
            let log = append_to_last(files, c);
            let (before, after) = (store_contents(files), store_contents(log));
            &&& keydir_after(keydir, c, entry.file_id, entry.offset, entry.len)[k] == entry
            &&& value_in(log.last().bytes().subrange(entry.offset as int, entry.offset + entry.len))
                == Ok::<Option<Seq<char>>, KvsErrorView>(Some(value))
            &&& other != k ==> after.contains_key(other) == before.contains_key(other)
                && after[other] == before[other]
        }),
{
    let k = encode_utf8(key);
    let c = CommandView::Put { ts, key: k, value: encode_utf8(value) };
    let entry = appended_at(files, c);
    law_append(files, keydir, c);
    let keydir2 = keydir_after(keydir, c, entry.file_id, entry.offset, entry.len);
    assert(keydir2.contains_key(k));
    law_read(append_to_last(files, c), keydir2, k, files.len() - 1);
    vstd::utf8::encode_utf8_valid_utf8(value);
    vstd::utf8::encode_utf8_decode_utf8(value);
}

/// A key that was removed is gone, and other keys keep their values.
pub proof fn law_get_after_remove(files: Seq<LogFile>, key: Seq<u8>, ts: u64, other: Seq<u8>)
    requires
        files.len() > 0,
    ensures
        ({
            let before = store_contents(files);
            let after = store_contents(append_to_last(files, CommandView::Rm { ts, key }));
            &&& !after.contains_key(key)
            &&& other != key ==> after.contains_key(other) == before.contains_key(other)
                && after[other] == before[other]
        }),
{
    let c = CommandView::Rm { ts, key };
    let after = append_to_last(files, c);
    assert(after.drop_last() =~= files.drop_last());
    assert(all_cmds(after) =~= all_cmds(files).push(c));
    assert(all_cmds(after).drop_last() =~= all_cmds(files));
}

} // verus!
