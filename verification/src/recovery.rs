//! What opening a store again gives: the contents that its files amount to.
use vstd::prelude::*;

use crate::bytes_util::{law_u32_round_trip, le32};
use crate::checksum::crc32;
use crate::command::{decode, law_decode_encode, law_encode_len, CommandView};
use crate::error::KvsErrorView;
use crate::index_value::{
    decode_hint, encode_hint, hint_covered, law_decode_encode_hint, law_encode_hint_len, IndexValue,
};
use crate::loader::{
    record_at, record_size, replay_data, replay_file, replay_files, replay_hint, whole_record,
    FileImageView, FileReplay, ReplayState, ScanEnd,
};
use crate::log_model::{
    append_to_last, faithful, law_append, law_rotate, lemma_log_bytes_split, lemma_place, log_bytes,
    store_contents, valid_files, LogFile,
};

verus! {

/// What replaying the commands of a file makes of a state.
pub open spec fn fold_cmds(file_id: u64, cmds: Seq<CommandView>, state: ReplayState) -> ReplayState
    decreases cmds.len(),
{
    if cmds.len() == 0 {
        state
    } else {
        let c = cmds.last();
        fold_cmds(file_id, cmds.drop_last(), state).apply(
            file_id,
            log_bytes(cmds.drop_last()).len() as int,
            c.encode().len() as int,
            c,
        )
    }
}

/// What replaying files one behind the other makes of an empty state.
pub open spec fn fold_files(files: Seq<LogFile>) -> ReplayState
    decreases files.len(),
{
    if files.len() == 0 {
        ReplayState { keydir: Map::empty(), stale: 0, offset: 0 }
    } else {
        fold_cmds(
            files.last().id,
            files.last().cmds,
            ReplayState { offset: 0, ..fold_files(files.drop_last()) },
        )
    }
}

/// The front of a record says how long the record is.
pub(crate) proof fn lemma_stated_len(c: CommandView, data: Seq<u8>, at: int)
    requires
        c.storable(),
        0 <= at,
        at + 8 <= data.len(),
        data.subrange(at, at + 8) == c.encode().take(8),
    ensures
        record_size(data, at) == c.encode().len(),
{
    law_encode_len(c);
    law_u32_round_trip(crc32(c.covered()));
    law_u32_round_trip(c.body_len() as u32);
    assert(c.encode().take(8).subrange(4, 8) =~= le32(c.body_len() as u32));
    assert(data.skip(at).subrange(4, 8) =~= data.subrange(at, at + 8).subrange(4, 8));
}

/// The records of a file are replayed one by one, whatever stands behind them.
proof fn lemma_replay_from(file: LogFile, tail: Seq<u8>, i: int, state: ReplayState)
    requires
        file.storable(),
        file.bytes().len() + tail.len() <= usize::MAX,
        0 <= i <= file.cmds.len(),
    ensures
        replay_data(
            file.id,
            file.bytes() + tail,
            file.offset(i),
            fold_cmds(file.id, file.cmds.take(i), state),
        ) == replay_data(
            file.id,
            file.bytes() + tail,
            file.bytes().len() as int,
            fold_cmds(file.id, file.cmds, state),
        ),
    decreases file.cmds.len() - i,
{
    let data = file.bytes() + tail;
    let at = file.offset(i);
    if i == file.cmds.len() {
        assert(file.cmds.take(i) =~= file.cmds);
    } else {
        let c = file.cmds[i];
        lemma_place(file, i);
        law_encode_len(c);
        assert(data.subrange(at, at + c.encode().len()) =~= c.encode());
        assert(data.subrange(at, at + 8) =~= c.encode().take(8)) by {
            assert(data.subrange(at, at + 8) =~= data.subrange(at, at + c.encode().len()).take(8));
        }
        lemma_stated_len(c, data, at);
        assert(record_at(data, at) =~= c.encode());
        law_decode_encode(c, Seq::empty());
        assert(c.encode() + Seq::<u8>::empty() =~= c.encode());
        assert(file.cmds.take(i + 1).drop_last() =~= file.cmds.take(i));
        lemma_replay_from(file, tail, i + 1, state);
    }
}

/// Whether bytes do not start with a whole record: there are none, or the
/// record that they start with runs past their end. What they hold does not
/// matter.
pub open spec fn incomplete(bytes: Seq<u8>) -> bool {
    bytes.len() == 0 || !whole_record(bytes, 0)
}

/// A record of which only the first `n` bytes were written is incomplete.
pub proof fn law_cut_record_is_incomplete(c: CommandView, n: int)
    requires
        c.storable(),
        0 <= n < c.encode().len(),
    ensures
        incomplete(c.encode().take(n)),
{
    let bytes = c.encode().take(n);
    if n >= 8 {
        assert(bytes.subrange(0, 8) =~= c.encode().take(8));
        lemma_stated_len(c, bytes, 0);
    }
}

/// Replaying a data file gives what its commands say. An incomplete record at
/// its end changes nothing of that, and is found.
pub proof fn law_replay_data(file: LogFile, tail: Seq<u8>, state: ReplayState)
    requires
        file.storable(),
        incomplete(tail),
        file.bytes().len() + tail.len() <= usize::MAX,
    ensures
        replay_data(file.id, file.bytes() + tail, 0, state) == (
            fold_cmds(file.id, file.cmds, state),
            if tail.len() == 0 {
                ScanEnd::Clean
            } else {
                ScanEnd::Torn(file.bytes().len() as int)
            },
        ),
{
    let data = file.bytes() + tail;
    assert(file.cmds.take(0) =~= Seq::<CommandView>::empty());
    lemma_replay_from(file, tail, 0, state);
    assert(data.skip(file.bytes().len() as int) =~= tail);
    assert(tail.skip(0) =~= tail);
}

/// Whether bytes start with a whole record that does not decode.
pub open spec fn damaged(bytes: Seq<u8>, e: KvsErrorView) -> bool {
    &&& whole_record(bytes, 0)
    &&& decode(record_at(bytes, 0)) == Err::<(CommandView, int), KvsErrorView>(e)
}

/// A damaged record is found, wherever it stands in a file.
pub proof fn law_damaged_data(file: LogFile, bad: Seq<u8>, e: KvsErrorView, state: ReplayState)
    requires
        file.storable(),
        file.bytes().len() + bad.len() <= usize::MAX,
        damaged(bad, e),
    ensures
        replay_data(file.id, file.bytes() + bad, 0, state) == (
            fold_cmds(file.id, file.cmds, state),
            ScanEnd::Bad(e),
        ),
{
    let data = file.bytes() + bad;
    let at = file.bytes().len() as int;
    assert(file.cmds.take(0) =~= Seq::<CommandView>::empty());
    lemma_replay_from(file, bad, 0, state);
    assert(data.skip(at) =~= bad);
    assert(bad.skip(0) =~= bad);
}

/// What the commands of a file do to an index is what entering them one by one
/// does.
proof fn lemma_fold_cmds_faithful(
    before: Seq<LogFile>,
    file: LogFile,
    i: int,
    state: ReplayState,
)
    requires
        valid_files(before.push(file)),
        0 <= i <= file.cmds.len(),
        faithful(before, state.keydir),
        state.offset == 0,
    ensures
        ({
            let part = LogFile { id: file.id, cmds: file.cmds.take(i) };
            let after = fold_cmds(file.id, file.cmds.take(i), state);
            &&& valid_files(before.push(part))
            &&& faithful(before.push(part), after.keydir)
            &&& after.offset == file.offset(i)
        }),
    decreases i,
{
    let part = LogFile { id: file.id, cmds: file.cmds.take(i) };
    let files = before.push(part);
    lemma_log_bytes_split(file.cmds, i);
    assert(part.storable()) by {
        assert(before.push(file).last().storable());
        assert forall|j: int| 0 <= j < part.cmds.len() implies (
        #[trigger] part.cmds[j]).storable() by {
            assert(file.cmds[j].storable());
        }
    }
    assert forall|j: int| 0 <= j < files.len() implies (#[trigger] files[j]).storable() by {
        assert(before.push(file)[j].storable());
    }
    assert forall|j: int, k: int| 0 <= j < k < files.len() implies files[j].id < files[k].id by {
        assert(before.push(file)[j].id < before.push(file)[k].id);
    }
    if i == 0 {
        assert(part.cmds =~= Seq::<CommandView>::empty());
        law_rotate(before, state.keydir, file.id);
    } else {
        let c = file.cmds[i - 1];
        let shorter = LogFile { id: file.id, cmds: file.cmds.take(i - 1) };
        lemma_fold_cmds_faithful(before, file, i - 1, state);
        assert(file.cmds.take(i).drop_last() =~= file.cmds.take(i - 1));
        assert(part.cmds =~= shorter.cmds.push(c));
        assert(append_to_last(before.push(shorter), c) =~= files);
        law_append(
            before.push(shorter),
            fold_cmds(file.id, shorter.cmds, state).keydir,
            c,
        );
    }
}

/// What replaying the commands of all files gives is faithful to the files.
pub proof fn law_fold_faithful(files: Seq<LogFile>)
    requires
        valid_files(files),
    ensures
        faithful(files, fold_files(files).keydir),
        files.len() > 0 ==> fold_files(files).offset == files.last().bytes().len(),
    decreases files.len(),
{
    if files.len() == 0 {
        assert(fold_files(files).keydir.dom() =~= store_contents(files).dom());
    } else {
        let before = files.drop_last();
        let file = files.last();
        assert(before.push(file) =~= files);
        assert forall|j: int| 0 <= j < before.len() implies (#[trigger] before[j]).storable() by {
            assert(files[j].storable());
        }
        law_fold_faithful(before);
        assert(file.cmds.take(file.cmds.len() as int) =~= file.cmds);
        lemma_fold_cmds_faithful(
            before,
            file,
            file.cmds.len() as int,
            ReplayState { offset: 0, ..fold_files(before) },
        );
    }
}

/// Whether a file can have a hint file: it holds no removals, and the length
/// fields of hints can hold the lengths.
pub open spec fn hintable(file: LogFile) -> bool {
    forall|i: int|
        0 <= i < file.cmds.len() ==> (#[trigger] file.cmds[i]) is Put && 28
            + file.cmds[i].key().len() <= u32::MAX
}

/// The bytes of a hint file for the first `i` commands of a file.
pub open spec fn hint_bytes(file: LogFile, i: int) -> Seq<u8>
    decreases i,
{
    if i <= 0 {
        Seq::empty()
    } else {
        hint_bytes(file, i - 1) + encode_hint(file.cmds[i - 1].key(), file.place(i - 1))
    }
}

/// The bytes of the whole hint file of a file.
pub open spec fn all_hints(file: LogFile) -> Seq<u8> {
    hint_bytes(file, file.cmds.len() as int)
}

/// Whether a hint file is sound: it is made of whole, sound hints.
pub open spec fn sound_hint(file_id: u64, hint: Seq<u8>) -> bool {
    replay_hint(file_id, hint, 0, Map::empty()).1
}

/// Whether a hint file is sound does not depend on the index.
proof fn lemma_sound(
    file_id: u64,
    hint: Seq<u8>,
    at: int,
    x: Map<Seq<u8>, IndexValue>,
    y: Map<Seq<u8>, IndexValue>,
)
    ensures
        replay_hint(file_id, hint, at, x).1 == replay_hint(file_id, hint, at, y).1,
    decreases hint.len() - at,
{
    if at < hint.len() && whole_record(hint, at) {
        if let Ok((key, value, _)) = decode_hint(record_at(hint, at), file_id) {
            lemma_sound(
                file_id,
                hint,
                at + record_size(hint, at),
                x.insert(key, value),
                y.insert(key, value),
            );
        }
    }
}

/// The front of a hint says how long the hint is.
proof fn lemma_stated_hint_len(key: Seq<u8>, value: IndexValue, data: Seq<u8>, at: int)
    requires
        28 + key.len() <= u32::MAX,
        0 <= at,
        at + 8 <= data.len(),
        data.subrange(at, at + 8) == encode_hint(key, value).take(8),
    ensures
        record_size(data, at) == encode_hint(key, value).len(),
{
    law_encode_hint_len(key, value);
    law_u32_round_trip(crc32(hint_covered(key, value)));
    law_u32_round_trip((28 + key.len()) as u32);
    assert(encode_hint(key, value).take(8).subrange(4, 8) =~= le32((28 + key.len()) as u32));
    assert(data.skip(at).subrange(4, 8) =~= data.subrange(at, at + 8).subrange(4, 8));
}

/// Whether bytes do not start with a sound hint.
pub open spec fn unsound_hint(bytes: Seq<u8>, file_id: u64) -> bool {
    &&& bytes.len() > 0
    &&& whole_record(bytes, 0) ==> decode_hint(record_at(bytes, 0), file_id) is Err
}

/// Whether `hint` holds the hints for the first `j` commands of a file, and
/// behind them `junk`: either the hints are complete and there is none, or it
/// does not start with a sound hint.
pub open spec fn hint_up_to(hint: Seq<u8>, file: LogFile, j: int, junk: Seq<u8>) -> bool {
    &&& hint.len() <= usize::MAX
    &&& 0 <= j <= file.cmds.len()
    &&& hint == hint_bytes(file, j) + junk
    &&& if junk.len() == 0 {
        j == file.cmds.len()
    } else {
        unsound_hint(junk, file.id)
    }
}

/// A hint of which the tail is missing is not sound.
pub proof fn law_torn_hint_is_unsound(key: Seq<u8>, value: IndexValue, n: int, file_id: u64)
    requires
        28 + key.len() <= u32::MAX,
        0 < n < encode_hint(key, value).len(),
    ensures
        unsound_hint(encode_hint(key, value).take(n), file_id),
{
    let bytes = encode_hint(key, value).take(n);
    if n >= 8 {
        assert(bytes.subrange(0, 8) =~= encode_hint(key, value).take(8));
        lemma_stated_hint_len(key, value, bytes, 0);
    }
}

pub(crate) proof fn lemma_hint_bytes_prefix(file: LogFile, i: int, j: int)
    requires
        0 <= i <= j,
    ensures
        hint_bytes(file, i).len() <= hint_bytes(file, j).len(),
        hint_bytes(file, j).take(hint_bytes(file, i).len() as int) == hint_bytes(file, i),
    decreases j,
{
    if i == j {
        assert(hint_bytes(file, j).take(hint_bytes(file, i).len() as int) =~= hint_bytes(file, i));
    } else {
        lemma_hint_bytes_prefix(file, i, j - 1);
        assert(hint_bytes(file, j).take(hint_bytes(file, i).len() as int) =~= hint_bytes(
            file,
            j - 1,
        ).take(hint_bytes(file, i).len() as int));
    }
}

proof fn lemma_replay_hint_from(
    hint: Seq<u8>,
    file: LogFile,
    j: int,
    junk: Seq<u8>,
    i: int,
    state: ReplayState,
)
    requires
        file.storable(),
        hintable(file),
        hint_up_to(hint, file, j, junk),
        0 <= i <= j,
    ensures
        replay_hint(
            file.id,
            hint,
            hint_bytes(file, i).len() as int,
            fold_cmds(file.id, file.cmds.take(i), state).keydir,
        ) == (fold_cmds(file.id, file.cmds.take(j), state).keydir, junk.len() == 0),
    decreases j - i,
{
    let at = hint_bytes(file, i).len() as int;
    if i == j {
        assert(hint.skip(at) =~= junk);
        assert(junk.skip(0) =~= junk);
    } else {
        let key = file.cmds[i].key();
        let value = file.place(i);
        let one = encode_hint(key, value);
        law_encode_hint_len(key, value);
        lemma_hint_bytes_prefix(file, i + 1, j);
        let front = hint_bytes(file, i + 1);
        assert(hint.take(front.len() as int) =~= front);
        assert(hint.subrange(at, at + one.len()) =~= one) by {
            assert(front.subrange(at, at + one.len()) =~= one);
            assert(hint.subrange(at, at + one.len()) =~= hint.take(front.len() as int).subrange(
                at,
                at + one.len(),
            ));
        }
        assert(hint.subrange(at, at + 8) =~= one.take(8)) by {
            assert(hint.subrange(at, at + 8) =~= hint.subrange(at, at + one.len()).take(8));
        }
        lemma_stated_hint_len(key, value, hint, at);
        assert(record_at(hint, at) =~= one);
        law_decode_encode_hint(key, value, file.id, Seq::empty());
        assert(one + Seq::<u8>::empty() =~= one);
        assert(file.cmds.take(i + 1).drop_last() =~= file.cmds.take(i));
        assert(file.cmds[i] is Put);
        lemma_place(file, i);
        lemma_replay_hint_from(hint, file, j, junk, i + 1, state);
    }
}

/// Replaying the hint file of a data file does to the index what replaying the
/// data file itself does, up to where the hint file is unsound.
pub proof fn law_replay_hint(
    hint: Seq<u8>,
    file: LogFile,
    j: int,
    junk: Seq<u8>,
    state: ReplayState,
)
    requires
        file.storable(),
        hintable(file),
        hint_up_to(hint, file, j, junk),
    ensures
        replay_hint(file.id, hint, 0, state.keydir) == (
            fold_cmds(file.id, file.cmds.take(j), state).keydir,
            junk.len() == 0,
        ),
{
    assert(file.cmds.take(0) =~= Seq::<CommandView>::empty());
    lemma_replay_hint_from(hint, file, j, junk, 0, state);
}

/// Replaying commands counts their bytes, and as stale those of removals.
pub(crate) proof fn lemma_fold_counts(file_id: u64, cmds: Seq<CommandView>, state: ReplayState)
    ensures
        fold_cmds(file_id, cmds, state).offset == state.offset + log_bytes(cmds).len(),
        (forall|i: int| 0 <= i < cmds.len() ==> (#[trigger] cmds[i]) is Put) ==> fold_cmds(
            file_id,
            cmds,
            state,
        ).stale == state.stale,
    decreases cmds.len(),
{
    if cmds.len() > 0 {
        lemma_fold_counts(file_id, cmds.drop_last(), state);
        if forall|i: int| 0 <= i < cmds.len() ==> (#[trigger] cmds[i]) is Put {
            assert forall|i: int| 0 <= i < cmds.drop_last().len() implies (
            #[trigger] cmds.drop_last()[i]) is Put by {
                assert(cmds[i] is Put);
            }
            assert(cmds[cmds.len() - 1] is Put);
        }
    }
}

/// Whether one of the commands is about a key.
pub open spec fn mentions(cmds: Seq<CommandView>, key: Seq<u8>) -> bool {
    exists|i: int| 0 <= i < cmds.len() && (#[trigger] cmds[i]).key() == key
}

/// Whether an image shows a sealed file: all its bytes, and either no hint
/// file, or its whole hint file, or any bytes that are not a sound hint file.
pub open spec fn shows(image: FileImageView, file: LogFile) -> bool {
    &&& image.id == file.id
    &&& image.data == file.bytes()
    &&& match image.hint {
        None => true,
        Some(hint) => {
            ||| hintable(file) && hint.len() <= usize::MAX && hint == all_hints(file)
            ||| !sound_hint(file.id, hint)
        },
    }
}

/// Whether an image has a hint file that is not sound.
pub open spec fn bad_hint(image: FileImageView) -> bool {
    image.hint is Some && !sound_hint(image.id, image.hint->0)
}

/// A hint file that is not sound has no bearing on the recovered data: it is
/// as if it were not there, except that it has to go.
pub proof fn law_damaged_hint(image: FileImageView, active: u64, state: ReplayState)
    requires
        image.id != active,
        image.hint is Some,
        !replay_hint(image.id, image.hint->0, 0, state.keydir).1,
    ensures
        ({
            let bare = replay_file(FileImageView { hint: None, ..image }, active, state);
            let got = replay_file(image, active, state);
            &&& got.0 == bare.0
            &&& bare.1 is Ok ==> {
                &&& got.1 is Ok
                &&& got.1->Ok_0.drop_hint
                &&& got.1->Ok_0.truncate_to == bare.1->Ok_0.truncate_to
            }
            &&& bare.1 is Err ==> got.1 == bare.1
        }),
{
}

/// Replaying a sealed file does to the index what its commands say, whether it
/// has a hint file or not, and whether that is sound or not. The hint file
/// goes only if it is not sound.
pub proof fn law_replay_sealed(
    image: FileImageView,
    file: LogFile,
    active: u64,
    state: ReplayState,
)
    requires
        file.storable(),
        shows(image, file),
        file.id != active,
    ensures
        ({
            let (after, res) = replay_file(image, active, state);
            let expected = fold_cmds(file.id, file.cmds, ReplayState { offset: 0, ..state });
            &&& after.keydir == expected.keydir
            &&& after.stale == expected.stale
            &&& res == Ok::<FileReplay, KvsErrorView>(
                FileReplay { drop_hint: bad_hint(image), truncate_to: None },
            )
        }),
{
    let start = ReplayState { offset: 0, ..state };
    assert(file.bytes() + Seq::<u8>::empty() =~= file.bytes());
    law_replay_data(file, Seq::empty(), start);
    if image.hint is Some {
        let hint = image.hint->0;
        let n = file.cmds.len() as int;
        lemma_sound(file.id, hint, 0, state.keydir, Map::empty());
        if sound_hint(file.id, hint) {
            assert(hint =~= all_hints(file) + Seq::<u8>::empty());
            law_replay_hint(hint, file, n, Seq::empty(), start);
            assert(file.cmds.take(n) =~= file.cmds);
            assert forall|i: int| 0 <= i < file.cmds.len() implies (
            #[trigger] file.cmds[i]) is Put by {}
            lemma_fold_counts(file.id, file.cmds, start);
        }
    }
}

/// A hint file that is cut short anywhere but between two hints, or that holds
/// something else behind sound hints, is not sound.
pub proof fn law_cut_hint(hint: Seq<u8>, file: LogFile, j: int, junk: Seq<u8>)
    requires
        file.storable(),
        hintable(file),
        junk.len() > 0,
        hint_up_to(hint, file, j, junk),
    ensures
        !sound_hint(file.id, hint),
{
    law_replay_hint(
        hint,
        file,
        j,
        junk,
        ReplayState { keydir: Map::empty(), stale: 0, offset: 0 },
    );
}

/// Replaying the active file gives what its commands say. An incomplete record
/// at its end is cut off.
pub proof fn law_replay_active(
    image: FileImageView,
    file: LogFile,
    tail: Seq<u8>,
    state: ReplayState,
)
    requires
        file.storable(),
        incomplete(tail),
        file.bytes().len() + tail.len() <= usize::MAX,
        image.id == file.id,
        image.data == file.bytes() + tail,
    ensures
        replay_file(image, file.id, state) == (
            fold_cmds(file.id, file.cmds, ReplayState { offset: 0, ..state }),
            Ok::<FileReplay, KvsErrorView>(
                FileReplay {
                    drop_hint: false,
                    truncate_to: if tail.len() == 0 {
                        None
                    } else {
                        Some(file.bytes().len() as u64)
                    },
                },
            ),
        ),
{
    let start = ReplayState { offset: 0, ..state };
    law_replay_data(file, tail, start);
    lemma_fold_counts(file.id, file.cmds, start);
}

/// A sealed file that ends in a torn record is refused, unless a sound hint
/// file stands for it.
pub proof fn law_torn_sealed_file(
    image: FileImageView,
    file: LogFile,
    tail: Seq<u8>,
    active: u64,
    state: ReplayState,
)
    requires
        file.storable(),
        tail.len() > 0,
        incomplete(tail),
        file.bytes().len() + tail.len() <= usize::MAX,
        image.id == file.id,
        image.data == file.bytes() + tail,
        image.hint is None || bad_hint(image),
        file.id != active,
    ensures
        replay_file(image, active, state).1 == Err::<FileReplay, KvsErrorView>(
            KvsErrorView::Corruption,
        ),
{
    law_replay_data(file, tail, ReplayState { offset: 0, ..state });
    if image.hint is Some {
        lemma_sound(file.id, image.hint->0, 0, state.keydir, Map::empty());
    }
}

proof fn lemma_reopen_from(
    images: Seq<FileImageView>,
    files: Seq<LogFile>,
    tail: Seq<u8>,
    i: int,
    state: ReplayState,
)
    requires
        shows_store(images, files, tail),
        0 <= i < files.len(),
        state.keydir == fold_files(files.take(i)).keydir,
        state.stale == fold_files(files.take(i)).stale,
    ensures
        ({
            let (after, res) = replay_files(images.skip(i), files.last().id, state);
            &&& after == fold_files(files)
            &&& res is Ok
            &&& res->Ok_0 =~= Seq::new(
                (files.len() - i) as nat,
                |j: int| file_outcome(images, files, tail, i + j),
            )
        }),
    decreases files.len() - i,
{
    let active = files.last().id;
    let rest = images.skip(i);
    assert(rest[0] == images[i]);
    assert(files.take(i + 1).drop_last() =~= files.take(i));
    let (after, res) = replay_file(images[i], active, state);
    if i == files.len() - 1 {
        assert(files.take(i + 1) =~= files);
        law_replay_active(images[i], files[i], tail, state);
        let more = replay_files(rest.skip(1), active, after);
        assert(rest.skip(1).len() == 0);
        if tail.len() == 0 {
            assert(seq![res->Ok_0] + more.1->Ok_0 =~= seq![res->Ok_0]);
        }
    } else {
        assert(files[i].id < files[files.len() - 1].id);
        law_replay_sealed(images[i], files[i], active, state);
        assert(rest.skip(1) =~= images.skip(i + 1));
        lemma_reopen_from(images, files, tail, i + 1, after);
        let more = replay_files(rest.skip(1), active, after).1->Ok_0;
        let all = seq![res->Ok_0] + more;
        assert forall|j: int| 0 <= j < all.len() implies #[trigger] all[j] == file_outcome(
            images,
            files,
            tail,
            i + j,
        ) by {
            if j > 0 {
                assert(more[j - 1] == file_outcome(images, files, tail, i + 1 + (j - 1)));
            }
        }
    }
}

/// Whether images show the files of a store, the last of which is active and
/// ends in an incomplete record, or in none.
pub open spec fn shows_store(
    images: Seq<FileImageView>,
    files: Seq<LogFile>,
    tail: Seq<u8>,
) -> bool {
    &&& valid_files(files)
    &&& files.len() > 0
    &&& images.len() == files.len()
    &&& forall|i: int| 0 <= i < files.len() - 1 ==> shows(#[trigger] images[i], files[i])
    &&& incomplete(tail)
    &&& files.last().bytes().len() + tail.len() <= usize::MAX
    &&& images.last().id == files.last().id
    &&& images.last().data == files.last().bytes() + tail
}

/// Where the active file has to be cut off.
pub open spec fn cut_at(files: Seq<LogFile>, tail: Seq<u8>) -> Option<u64> {
    if tail.len() == 0 {
        None
    } else {
        Some(files.last().bytes().len() as u64)
    }
}

/// What is left to be done with a file behind a replay: a hint file goes only
/// if it is not sound, and only the active file is cut off.
pub open spec fn file_outcome(
    images: Seq<FileImageView>,
    files: Seq<LogFile>,
    tail: Seq<u8>,
    i: int,
) -> FileReplay {
    if i == files.len() - 1 {
        FileReplay { drop_hint: false, truncate_to: cut_at(files, tail) }
    } else {
        FileReplay { drop_hint: bad_hint(images[i]), truncate_to: None }
    }
}

/// Opening a store again gives exactly the index that its commands amount to,
/// one by one, and so the contents that they amount to: every key with its
/// last value, and no key that was removed. Where the last write was cut short
/// it is as if it had not been started, and writing goes on where the last
/// whole record ends.
pub proof fn law_reopen(
    images: Seq<FileImageView>,
    files: Seq<LogFile>,
    tail: Seq<u8>,
)
    requires
        shows_store(images, files, tail),
    ensures
        ({
            let start = ReplayState { keydir: Map::empty(), stale: 0, offset: 0 };
            let (after, res) = replay_files(images, files.last().id, start);
            &&& after == fold_files(files)
            &&& faithful(files, after.keydir)
            &&& after.offset == files.last().bytes().len()
            &&& res is Ok
            &&& res->Ok_0 == Seq::new(
                files.len(),
                |i: int| file_outcome(images, files, tail, i),
            )
        }),
{
    let start = ReplayState { keydir: Map::empty(), stale: 0, offset: 0 };
    assert(images.skip(0) =~= images);
    assert(files.take(0) =~= Seq::<LogFile>::empty());
    lemma_reopen_from(images, files, tail, 0, start);
    law_fold_faithful(files);
    let outcomes = replay_files(images, files.last().id, start).1->Ok_0;
    assert forall|i: int| 0 <= i < files.len() implies #[trigger] outcomes[i] == file_outcome(
        images,
        files,
        tail,
        i,
    ) by {
        assert(outcomes[i] == file_outcome(images, files, tail, 0 + i));
    }
    assert(outcomes =~= Seq::new(files.len(), |i: int| file_outcome(images, files, tail, i)));
}

/// The images of files without their hint files.
pub open spec fn without_hints(images: Seq<FileImageView>) -> Seq<FileImageView> {
    images.map_values(|image: FileImageView| FileImageView { hint: None, ..image })
}

/// Loading the index from hint files and rebuilding it from the data files
/// alone agree.
pub proof fn law_hints_agree(
    images: Seq<FileImageView>,
    files: Seq<LogFile>,
    tail: Seq<u8>,
)
    requires
        shows_store(images, files, tail),
    ensures
        ({
            let start = ReplayState { keydir: Map::empty(), stale: 0, offset: 0 };
            let active = files.last().id;
            replay_files(without_hints(images), active, start).0 == replay_files(
                images,
                active,
                start,
            ).0
        }),
{
    let bare = without_hints(images);
    assert forall|i: int| 0 <= i < files.len() - 1 implies shows(#[trigger] bare[i], files[i]) by {
        assert(shows(images[i], files[i]));
    }
    law_reopen(images, files, tail);
    law_reopen(bare, files, tail);
}

/// Whether a command of a file is the last about its key, by file and then by
/// place in the file.
pub open spec fn last_about_key(files: Seq<LogFile>, f: int, i: int) -> bool {
    &&& 0 <= f < files.len()
    &&& 0 <= i < files[f].cmds.len()
    &&& forall|g: int, j: int|
        0 <= g < files.len() && 0 <= j < files[g].cmds.len() && (
        #[trigger] files[g].cmds[j]).key() == files[f].cmds[i].key() ==> g < f || (g == f && j
            <= i)
}

/// Where a key stands behind the commands of a file.
proof fn lemma_fold_key(file_id: u64, cmds: Seq<CommandView>, state: ReplayState, key: Seq<u8>)
    ensures
        ({
            let keydir = fold_cmds(file_id, cmds, state).keydir;
            &&& !mentions(cmds, key) ==> {
                &&& keydir.contains_key(key) == state.keydir.contains_key(key)
                &&& keydir[key] == state.keydir[key]
            }
            &&& forall|i: int|
                0 <= i < cmds.len() && (#[trigger] cmds[i]).key() == key && (forall|j: int|
                    i < j < cmds.len() ==> (#[trigger] cmds[j]).key() != key) ==> if cmds[i] is Put {
                    keydir.contains_key(key) && keydir[key] == (LogFile {
                        id: file_id,
                        cmds,
                    }).place(i)
                } else {
                    !keydir.contains_key(key)
                }
        }),
    decreases cmds.len(),
{
    if cmds.len() > 0 {
        let front = cmds.drop_last();
        let last = cmds.len() - 1;
        let keydir = fold_cmds(file_id, cmds, state).keydir;
        lemma_fold_key(file_id, front, state, key);
        if !mentions(cmds, key) {
            assert(cmds[last].key() != key);
            assert forall|i: int| 0 <= i < front.len() implies (#[trigger] front[i]).key()
                != key by {
                assert(cmds[i].key() != key);
            }
        }
        assert forall|i: int|
            0 <= i < cmds.len() && (#[trigger] cmds[i]).key() == key && (forall|j: int|
                i < j < cmds.len() ==> (#[trigger] cmds[j]).key() != key) implies if cmds[i] is Put {
            keydir.contains_key(key) && keydir[key] == (LogFile { id: file_id, cmds }).place(i)
        } else {
            !keydir.contains_key(key)
        } by {
            if i < last {
                assert(front[i].key() == key);
                assert(cmds[last].key() != key);
                assert forall|j: int| i < j < front.len() implies (#[trigger] front[j]).key()
                    != key by {
                    assert(cmds[j].key() != key);
                }
                assert(front.take(i) =~= cmds.take(i));
            } else {
                assert(cmds.take(i) =~= front);
            }
        }
    }
}

/// The index that commands amount to has exactly the keys whose last record is
/// a Put, each at the place of that record.
pub proof fn law_last_record(files: Seq<LogFile>, f: int, i: int)
    requires
        last_about_key(files, f, i),
    ensures
        ({
            let keydir = fold_files(files).keydir;
            let c = files[f].cmds[i];
            if c is Put {
                keydir.contains_key(c.key()) && keydir[c.key()] == files[f].place(i)
            } else {
                !keydir.contains_key(c.key())
            }
        }),
    decreases files.len(),
{
    let front = files.drop_last();
    let last = files.last();
    let key = files[f].cmds[i].key();
    let before = ReplayState { offset: 0, ..fold_files(front) };
    lemma_fold_key(last.id, last.cmds, before, key);
    if f == files.len() - 1 {
        assert forall|j: int| i < j < last.cmds.len() implies (#[trigger] last.cmds[j]).key()
            != key by {
            assert(files[f].cmds[j].key() != key);
        }
        assert(last.cmds[i].key() == key);
    } else {
        assert(!mentions(last.cmds, key)) by {
            if mentions(last.cmds, key) {
                let j = choose|j: int|
                    0 <= j < last.cmds.len() && (#[trigger] last.cmds[j]).key() == key;
                assert(files[files.len() - 1].cmds[j].key() == key);
            }
        }
        assert(front[f] == files[f]);
        assert forall|g: int, j: int|
            0 <= g < front.len() && 0 <= j < front[g].cmds.len() && (
            #[trigger] front[g].cmds[j]).key() == front[f].cmds[i].key() implies g < f || (g == f
            && j <= i) by {
            assert(files[g].cmds[j].key() == files[f].cmds[i].key());
        }
        law_last_record(front, f, i);
    }
}

/// A key that no record is about is not in the index.
pub proof fn law_unknown_key(files: Seq<LogFile>, key: Seq<u8>)
    requires
        forall|f: int| 0 <= f < files.len() ==> !mentions((#[trigger] files[f]).cmds, key),
    ensures
        !fold_files(files).keydir.contains_key(key),
    decreases files.len(),
{
    if files.len() > 0 {
        let front = files.drop_last();
        assert forall|f: int| 0 <= f < front.len() implies !mentions(
            (#[trigger] front[f]).cmds,
            key,
        ) by {
            assert(files[f] == front[f]);
        }
        law_unknown_key(front, key);
        assert(!mentions(files[files.len() - 1].cmds, key));
        lemma_fold_key(
            files.last().id,
            files.last().cmds,
            ReplayState { offset: 0, ..fold_files(front) },
            key,
        );
    }
}

proof fn lemma_damage_from(
    images: Seq<FileImageView>,
    files: Seq<LogFile>,
    active: u64,
    bad: Seq<u8>,
    e: KvsErrorView,
    i: int,
    state: ReplayState,
)
    requires
        damaged_store(images, files, active, bad, e),
        0 <= i < files.len(),
    ensures
        replay_files(images.skip(i), active, state).1 == Err::<Seq<FileReplay>, KvsErrorView>(e),
    decreases files.len() - i,
{
    let rest = images.skip(i);
    assert(rest[0] == images[i]);
    let after = replay_file(images[i], active, state).0;
    if i == files.len() - 1 {
        law_damaged_data(files[i], bad, e, ReplayState { offset: 0, ..state });
        if images[i].hint is Some {
            lemma_sound(files[i].id, images[i].hint->0, 0, state.keydir, Map::empty());
        }
    } else {
        law_replay_sealed(images[i], files[i], active, state);
        assert(rest.skip(1) =~= images.skip(i + 1));
        lemma_damage_from(images, files, active, bad, e, i + 1, after);
    }
}

/// Whether images show files of a store up to one that holds `bad` behind its
/// sound records, and that is read record by record.
pub open spec fn damaged_store(
    images: Seq<FileImageView>,
    files: Seq<LogFile>,
    active: u64,
    bad: Seq<u8>,
    e: KvsErrorView,
) -> bool {
    &&& valid_files(files)
    &&& 0 < files.len() <= images.len()
    &&& forall|i: int|
        0 <= i < files.len() - 1 ==> shows(#[trigger] images[i], files[i]) && files[i].id != active
    &&& images[files.len() - 1].id == files.last().id
    &&& images[files.len() - 1].data == files.last().bytes() + bad
    &&& {
        ||| images[files.len() - 1].hint is None
        ||| bad_hint(images[files.len() - 1])
        ||| files.last().id == active
    }
    &&& files.last().bytes().len() + bad.len() <= usize::MAX
    &&& damaged(bad, e)
}

/// A damaged record anywhere in the log fails the open, instead of bad data
/// being served.
pub proof fn law_damage_fails_open(
    images: Seq<FileImageView>,
    files: Seq<LogFile>,
    active: u64,
    bad: Seq<u8>,
    e: KvsErrorView,
    state: ReplayState,
)
    requires
        damaged_store(images, files, active, bad, e),
    ensures
        replay_files(images, active, state).1 == Err::<Seq<FileReplay>, KvsErrorView>(e),
{
    assert(images.skip(0) =~= images);
    lemma_damage_from(images, files, active, bad, e, 0, state);
}

} // verus!
