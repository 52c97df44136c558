//! What calls of the library return and change, one call behind the other.
use vstd::prelude::*;

use crate::bitcask::{ascending, insert_id, remove_id, Bitcask};
use crate::byte_reader::read_exact;
use crate::bytes_util::{
    law_read_number, law_u32_round_trip, law_u64_round_trip, le32, le64, push_bytes, push_u32,
    push_u64, same_bytes, u32_of, u64_of, BytesUtil,
};
use crate::checksum::crc32;
use crate::command::{
    law_decode_encode, law_encode_len, law_stated_len, stated_body_len, Command, CommandType,
    CommandView,
};
use crate::config::{Config};
use crate::error::{ErrorKind, IoError, KvsError, KvsErrorView};
use crate::file_name::{
    file_kind, get_file_id, law_kinds, note_file, parse_id, pick_active, strip_suffix, FileKind,
};
use crate::index::{Bucket, Index};
use crate::index_value::{law_decode_encode_hint, IndexValue};
use crate::loader::{
    file_views, replay_file, replay_files, replay_hint, FileImage, FileReplay, FileStart, Loader,
    ReplayState,
};
use crate::log_model::LogFile;
use crate::merge::{pending_views, Copied, CopyState, Merge, MergeOutput, Source};
use crate::merge_model::{copied, law_copy_file, law_merge_refuses_damage, lemma_copied_len};
use crate::network::error::ErrorCode;
use crate::network::protocol::{
    acts_on, decode_request, decode_response, execute, frame, get_response, law_frame_in_pieces,
    law_frame_round_trip, law_request_round_trip, law_response_round_trip, read_frame, receive,
    write_frame, write_request, write_response, write_result_response, FrameReader, FrameStep,
    OneCall, Request, Response, ResponseView, MAX_PAYLOAD,
};
use crate::record_reader::{RecordRead, RecordReadView, RecordReader};
use crate::recovery::{
    all_hints, damaged, fold_cmds, hint_up_to, hintable, incomplete, law_reopen, law_replay_data,
    law_replay_hint, lemma_fold_counts, shows_store,
};
use crate::store_model::{law_opened, represents};
use crate::text::{blank, chars_of, is_space, law_trimmed, same_text, trim};
use crate::writer::WriterState;

verus! {

/// Entering a record moves its key to the place of the record, or takes the key
/// out, and leaves every other key where it is. What the key had before goes
/// stale with its length; the active file grows by the record; nothing else
/// changes.
pub proof fn law_append_call(
    store: &mut Bitcask,
    command: &Command,
    len: usize,
    other: Seq<u8>,
)
    requires
        call_ensures(Bitcask::append, (store, command, len), ()),
        old(store).writer.offset + len <= u64::MAX,
        old(store).index@.contains_key(command@.key()) ==> old(store).writer.stale_bytes_count
            + old(store).index@[command@.key()].len <= u64::MAX,
    ensures
        ({
            let (before, after) = (*old(store), *final(store));
            let key = command@.key();
            &&& after.index@.contains_key(key) <==> command@ is Put
            &&& command@ is Put ==> after.index@[key] == (IndexValue {
                file_id: before.writer.current_file_id,
                ts: command@.ts(),
                offset: before.writer.offset,
                len,
            })
            &&& other != key ==> after.index@.contains_key(other) == before.index@.contains_key(
                other,
            ) && after.index@[other] == before.index@[other]
            &&& after.writer.stale_bytes_count == before.writer.stale_bytes_count
                + if before.index@.contains_key(key) {
                before.index@[key].len as int
            } else {
                0
            }
            &&& after.writer.offset == before.writer.offset + len
            &&& after.writer.current_file_id == before.writer.current_file_id
            &&& after.writer.flushed_offset == before.writer.flushed_offset
            &&& after.writer.last_ts_flushed == before.writer.last_ts_flushed
            &&& after.config == before.config
            &&& after.readers == before.readers
        }),
{
}

/// Entering a sync, one that the policy asked for, or a rotation.
pub proof fn law_sync_calls(
    synced: &mut Bitcask,
    policy_synced: &mut Bitcask,
    rotated: &mut Bitcask,
    id: u64,
    now: u64,
    x: u64,
)
    requires
        call_ensures(Bitcask::sync, (synced,), ()),
        call_ensures(Bitcask::policy_synced, (policy_synced, now), ()),
        call_ensures(Bitcask::rotate_to, (rotated, id, now), ()),
    ensures
        old(synced).forced(&*final(synced)),
        old(policy_synced).policy_forced(&*final(policy_synced), now),
        old(rotated).rotated(&*final(rotated), id, now),
        final(rotated).writer.current_file_id == id,
        final(rotated).writer.offset == 0,
        final(rotated).writer.stale_bytes_count == old(rotated).writer.stale_bytes_count,
        final(rotated).index@ == old(rotated).index@,
        final(rotated).readers@.contains(x) <==> old(rotated).readers@.contains(x) || x == id,
{
}

/// The steps of a merge are those that the laws of merging speak of.
pub proof fn law_merge_calls(
    store: &Bitcask,
    sources: Vec<Source>,
    planned: Merge,
    opened: &mut Merge,
    finishing: &mut Merge,
    finishing_store: &mut Bitcask,
    removing: &mut Merge,
    removing_store: &mut Bitcask,
    done: &Merge,
    done_store: &mut Bitcask,
)
    requires
        call_ensures(Merge::new, (store, sources), planned),
        call_ensures(Merge::output_opened, (opened,), ()),
        call_ensures(Merge::finish_output, (finishing, finishing_store), ()),
        call_ensures(Merge::source_removed, (removing, removing_store), ()),
        call_ensures(Merge::complete, (done, done_store), ()),
    ensures
        planned.wf() && planned.planned(store, sources@),
        old(opened).opened(&*final(opened)),
        old(finishing).finished_into(
            &*old(finishing_store),
            &*final(finishing),
            &*final(finishing_store),
        ),
        old(removing).removed_from(
            &*old(removing_store),
            &*final(removing),
            &*final(removing_store),
        ),
        done.completed(&*old(done_store), &*final(done_store)),
{
}

/// Copying from a sealed file gives the records of the file that keys stand at,
/// in their order, and one hint for each.
pub proof fn law_copy_call(
    merge: &mut Merge,
    index: &Index,
    data: &[u8],
    file: LogFile,
    out: LogFile,
    res: Result<Copied, KvsError>,
)
    requires
        call_ensures(Merge::copy_file, (merge, index, data), res),
        old(merge).output is Some,
        file.storable(),
        file.id == old(merge).sources@[old(merge).next as int].id,
        data@ == file.bytes(),
        out.id == old(merge).output->0.id,
        out.bytes().len() == old(merge).output->0.written,
        copied(
            file,
            index@,
            out,
            pending_views(old(merge).pending@),
            file.cmds.len() as int,
        ).0.bytes().len() <= usize::MAX,
    ensures
        ({
            let (longer, updates) = copied(
                file,
                index@,
                out,
                pending_views(old(merge).pending@),
                file.cmds.len() as int,
            );
            &&& res is Ok
            &&& longer.bytes() == out.bytes() + res->Ok_0.records@
            &&& all_hints(longer) == all_hints(out) + res->Ok_0.hints@
            &&& pending_views(final(merge).pending@) == updates
            &&& final(merge).output is Some
            &&& final(merge).output->0.written == longer.bytes().len()
            &&& final(merge).output->0.id == out.id
            &&& final(merge).next == old(merge).next + 1
        }),
{
    law_copy_file(file, index@, out, pending_views(old(merge).pending@));
    lemma_copied_len(
        file,
        index@,
        out,
        pending_views(old(merge).pending@),
        file.cmds.len() as int,
    );
}

/// A record of the output stands where the output ended.
pub proof fn law_output_call(out: &mut MergeOutput, ts: u64, len: usize, value: IndexValue)
    requires
        call_ensures(MergeOutput::append, (out, ts, len), value),
        old(out).written + len <= u64::MAX,
    ensures
        value == (IndexValue { file_id: old(out).id, ts, offset: old(out).written, len }),
        final(out).id == old(out).id,
        final(out).written == old(out).written + len,
{
}

/// Opening a store over its files succeeds, gives a store that keeps them, and
/// says of each file what is left to be done.
pub proof fn law_open_call(
    config: Config,
    images: Vec<FileImage>,
    now: u64,
    files: Seq<LogFile>,
    tail: Seq<u8>,
    res: Result<(Bitcask, Vec<FileReplay>), KvsError>,
)
    requires
        call_ensures(Bitcask::open, (config, images, now), res),
        shows_store(file_views(images@), files, tail),
    ensures
        res is Ok,
        represents(&res->Ok_0.0, files),
        res->Ok_0.0.config == config,
        res->Ok_0.1@.len() == files.len(),
        tail.len() == 0 ==> res->Ok_0.1@.last().truncate_to is None,
        tail.len() > 0 ==> res->Ok_0.1@.last().truncate_to == Some(
            files.last().bytes().len() as u64,
        ),
{
    law_opened(file_views(images@), files, tail, res->Ok_0.0, now);
    law_reopen(file_views(images@), files, tail);
}

/// The calls of a loader do what the laws of recovery speak of.
pub proof fn law_loader_calls(
    all: &mut Loader,
    images: &Vec<FileImage>,
    outcomes: Result<Vec<FileReplay>, KvsError>,
    one: &mut Loader,
    image: &FileImage,
    outcome: Result<FileReplay, KvsError>,
    starting: &mut Loader,
    file_id: u64,
    hint: &[u8],
    start: FileStart,
)
    requires
        call_ensures(Loader::replay, (all, images), outcomes),
        call_ensures(Loader::replay_file, (one, image), outcome),
        call_ensures(Loader::begin_file, (starting, file_id, Some(hint)), start),
    ensures
        final(all)@ == replay_files(
            file_views(images@),
            old(all).writer.current_file_id,
            old(all)@,
        ).0,
        outcomes is Ok <==> replay_files(
            file_views(images@),
            old(all).writer.current_file_id,
            old(all)@,
        ).1 is Ok,
        final(one)@ == replay_file(image@, old(one).writer.current_file_id, old(one)@).0,
        outcome is Ok <==> replay_file(
            image@,
            old(one).writer.current_file_id,
            old(one)@,
        ).1 is Ok,
        // a hint file that is not sound, or that of the active file, changes nothing
        start is NeedsData ==> *final(starting) == *old(starting),
        start is Loaded <==> file_id != old(starting).writer.current_file_id && replay_hint(
            file_id,
            hint@,
            0,
            old(starting)@.keydir,
        ).1,
        start is NeedsData ==> (start->drop_hint <==> file_id
            != old(starting).writer.current_file_id),
{
}

/// A command that is serialized, and deserialized again with anything behind
/// it, is the same command, and its length is that of its record.
pub proof fn law_command_calls<'a>(
    command: &Command<'a>,
    record: Vec<u8>,
    rest: Seq<u8>,
    buf: &'a [u8],
    res: Result<(Command<'a>, usize), KvsError>,
)
    requires
        command@.storable(),
        call_ensures(Command::serialize, (command,), record),
        buf@ == record@ + rest,
        buf@.len() <= usize::MAX,
        call_ensures(Command::deserialize, (buf,), res),
    ensures
        res is Ok,
        res->Ok_0.0@ == command@,
        res->Ok_0.1 == record@.len(),
{
    law_decode_encode(command@, rest);
}

/// A hint that is serialized, and deserialized again with anything behind it,
/// has the same key and place, under the file id of the reader.
pub proof fn law_hint_calls<'a>(
    value: &IndexValue,
    key: &[u8],
    record: Vec<u8>,
    rest: Seq<u8>,
    buf: &'a [u8],
    file_id: u64,
    res: Result<(&'a [u8], IndexValue, usize), KvsError>,
)
    requires
        28 + key@.len() <= u32::MAX,
        call_ensures(IndexValue::serialize, (value, key), record),
        buf@ == record@ + rest,
        buf@.len() <= usize::MAX,
        call_ensures(IndexValue::deserialize, (buf, file_id), res),
    ensures
        res is Ok,
        res->Ok_0.0@ == key@,
        res->Ok_0.1 == (IndexValue { file_id, ts: value.ts, offset: value.offset, len: value.len }),
        res->Ok_0.2 == record@.len(),
{
    law_decode_encode_hint(key@, *value, file_id, rest);
}

/// A frame that is written is read back, and the reader stands behind it.
pub proof fn law_frame_calls(
    writer: &mut Vec<u8>,
    msg_type: u8,
    payload: &[u8],
    written: Result<(), KvsError>,
    reader: &mut &[u8],
    rest: Seq<u8>,
    res: Result<Option<(u8, Vec<u8>)>, KvsError>,
)
    requires
        payload@.len() <= MAX_PAYLOAD,
        old(writer)@.len() == 0,
        call_ensures(write_frame, (writer, msg_type, payload), written),
        old(reader)@ == final(writer)@ + rest,
        call_ensures(read_frame, (reader,), res),
    ensures
        written is Ok,
        res is Ok && res->Ok_0 is Some,
        (res->Ok_0->Some_0).0 == msg_type,
        (res->Ok_0->Some_0).1@ == payload@,
        final(reader)@ == rest,
{
    assert(final(writer)@ =~= frame(msg_type, payload@));
    law_frame_round_trip(msg_type, payload@, rest);
}

/// A request that is written, read as a frame and decoded is the same request;
/// so is a response.
pub proof fn law_message_calls<'a>(
    writer: &mut Vec<u8>,
    req: &Request,
    written: Result<(), KvsError>,
    reader: &mut &[u8],
    got: Result<Option<(u8, Vec<u8>)>, KvsError>,
    payload: &'a [u8],
    decoded: Result<Request<'a>, KvsError>,
)
    requires
        req@.payload().len() <= MAX_PAYLOAD,
        old(writer)@.len() == 0,
        call_ensures(write_request, (writer, req), written),
        old(reader)@ == final(writer)@,
        call_ensures(read_frame, (reader,), got),
        got is Ok && got->Ok_0 is Some ==> payload@ == (got->Ok_0->Some_0).1@,
        call_ensures(decode_request, ((got->Ok_0->Some_0).0, payload), decoded),
    ensures
        written is Ok,
        got is Ok && got->Ok_0 is Some,
        decoded is Ok,
        decoded->Ok_0@ == req@,
        final(reader)@.len() == 0,
{
    let bytes = frame(req@.msg_type(), req@.payload());
    assert(final(writer)@ =~= bytes);
    assert(bytes + Seq::<u8>::empty() =~= bytes);
    law_frame_round_trip(req@.msg_type(), req@.payload(), Seq::empty());
    law_request_round_trip(req@);
}

/// A response that is written, read as a frame and decoded is the same
/// response.
pub proof fn law_response_calls(
    writer: &mut Vec<u8>,
    resp: &Response,
    written: Result<(), KvsError>,
    reader: &mut &[u8],
    got: Result<Option<(u8, Vec<u8>)>, KvsError>,
    payload: &[u8],
    decoded: Result<Response, KvsError>,
)
    requires
        resp@.payload().len() <= MAX_PAYLOAD,
        old(writer)@.len() == 0,
        call_ensures(write_response, (writer, resp), written),
        old(reader)@ == final(writer)@,
        call_ensures(read_frame, (reader,), got),
        got is Ok && got->Ok_0 is Some ==> payload@ == (got->Ok_0->Some_0).1@,
        call_ensures(decode_response, ((got->Ok_0->Some_0).0, payload), decoded),
    ensures
        written is Ok,
        got is Ok && got->Ok_0 is Some,
        decoded is Ok,
        decoded->Ok_0@ == resp@,
{
    let bytes = frame(resp@.msg_type(), resp@.payload());
    assert(final(writer)@ =~= bytes);
    assert(bytes + Seq::<u8>::empty() =~= bytes);
    law_frame_round_trip(resp@.msg_type(), resp@.payload(), Seq::empty());
    law_response_round_trip(resp@);
}

/// A stream may end in front of a frame, and nowhere else.
pub proof fn law_stream_end(reader: &FrameReader, res: Result<(), KvsError>)
    requires
        call_ensures(FrameReader::end_of_stream, (reader,), res),
    ensures
        res is Ok <==> reader@.len() == 0,
        res is Err ==> res->Err_0@ is Io && res->Err_0@->Io_0.kind == ErrorKind::UnexpectedEof,
{
}

/// Reads at a cursor: what comes back is what stands there, least significant
/// byte first; the cursor moves behind it, and stays where the read fails.
pub proof fn law_cursor_calls(
    buf: &[u8],
    cursor8: &mut usize,
    byte: Result<u8, IoError>,
    cursor32: &mut usize,
    number: Result<u32, IoError>,
    cursor_run: &mut usize,
    len: usize,
    run: Result<&[u8], IoError>,
)
    requires
        buf@.len() <= usize::MAX,
        call_ensures(BytesUtil::read_u8, (buf, cursor8), byte),
        call_ensures(BytesUtil::read_u32, (buf, cursor32), number),
        call_ensures(BytesUtil::read_bytes, (buf, cursor_run, len), run),
    ensures
        byte is Ok <==> *old(cursor8) < buf@.len(),
        byte is Ok ==> byte->Ok_0 == buf@[*old(cursor8) as int] && *final(cursor8) == *old(cursor8)
            + 1,
        byte is Err ==> *final(cursor8) == *old(cursor8) && byte->Err_0@.kind
            == ErrorKind::UnexpectedEof,
        number is Ok <==> *old(cursor32) + 4 <= buf@.len(),
        number is Ok ==> {
            let at = *old(cursor32) as int;
            &&& number->Ok_0 == buf@[at] + 0x100 * buf@[at + 1] + 0x1_0000 * buf@[at + 2]
                + 0x100_0000 * buf@[at + 3]
            &&& *final(cursor32) == at + 4
        },
        number is Err ==> *final(cursor32) == *old(cursor32) && number->Err_0@.kind == (
        if *old(cursor32) + 4 > usize::MAX {
            ErrorKind::InvalidData
        } else {
            ErrorKind::UnexpectedEof
        }),
        run is Ok <==> *old(cursor_run) + len <= buf@.len(),
        run is Ok ==> run->Ok_0@ == buf@.subrange(
            *old(cursor_run) as int,
            *old(cursor_run) + len,
        ) && *final(cursor_run) == *old(cursor_run) + len,
        run is Err ==> *final(cursor_run) == *old(cursor_run) && run->Err_0@.kind == (
        if *old(cursor_run) + len > usize::MAX {
            ErrorKind::InvalidData
        } else {
            ErrorKind::UnexpectedEof
        }),
{
    if *old(cursor32) + 4 <= buf@.len() {
        law_read_number(buf@, *old(cursor32) as int);
    }
}

/// A number of eight bytes is two of four, the lower half first.
pub proof fn law_long_cursor_call(
    buf: &[u8],
    cursor: &mut usize,
    number: Result<u64, IoError>,
    low: &mut usize,
    high: &mut usize,
    halves: (Result<u32, IoError>, Result<u32, IoError>),
)
    requires
        buf@.len() <= usize::MAX,
        call_ensures(BytesUtil::read_u64, (buf, cursor), number),
        *old(low) == *old(cursor),
        *old(high) == *old(cursor) + 4,
        call_ensures(BytesUtil::read_u32, (buf, low), halves.0),
        call_ensures(BytesUtil::read_u32, (buf, high), halves.1),
    ensures
        number is Ok <==> *old(cursor) + 8 <= buf@.len(),
        number is Ok ==> number->Ok_0 == halves.0->Ok_0 + 0x1_0000_0000 * halves.1->Ok_0
            && *final(cursor) == *old(cursor) + 8,
        number is Err ==> *final(cursor) == *old(cursor),
{
    if *old(cursor) + 8 <= buf@.len() {
        law_read_number(buf@, *old(cursor) as int);
    }
}

/// What is appended to a buffer stands behind what it held.
pub proof fn law_push_calls(
    a: &mut Vec<u8>,
    x: u32,
    b: &mut Vec<u8>,
    y: u64,
    c: &mut Vec<u8>,
    bytes: &[u8],
)
    requires
        call_ensures(push_u32, (a, x), ()),
        call_ensures(push_u64, (b, y), ()),
        call_ensures(push_bytes, (c, bytes), ()),
    ensures
        final(a)@.len() == old(a)@.len() + 4,
        final(a)@.take(old(a)@.len() as int) == old(a)@,
        u32_of(final(a)@.skip(old(a)@.len() as int)) == x,
        final(b)@.len() == old(b)@.len() + 8,
        final(b)@.take(old(b)@.len() as int) == old(b)@,
        u64_of(final(b)@.skip(old(b)@.len() as int)) == y,
        final(c)@ == old(c)@ + bytes@,
{
    law_u32_round_trip(x);
    law_u64_round_trip(y);
    assert(final(a)@.take(old(a)@.len() as int) =~= old(a)@);
    assert(final(a)@.skip(old(a)@.len() as int) =~= le32(x));
    assert(final(b)@.take(old(b)@.len() as int) =~= old(b)@);
    assert(final(b)@.skip(old(b)@.len() as int) =~= le64(y));
}

/// Bytes are taken off the front of what is left; where there are too few, all
/// are consumed.
pub proof fn law_read_exact_call(reader: &mut &[u8], n: usize, res: Result<&[u8], IoError>)
    requires
        call_ensures(read_exact, (reader, n), res),
    ensures
        res is Ok <==> n <= old(reader)@.len(),
        res is Ok ==> res->Ok_0@ + final(reader)@ == old(reader)@ && res->Ok_0@.len() == n,
        res is Err ==> final(reader)@.len() == 0 && res->Err_0@.kind == ErrorKind::UnexpectedEof,
{
    if n <= old(reader)@.len() {
        assert(res->Ok_0@ + final(reader)@ =~= old(reader)@);
    }
}

/// The next record of a file: the one whose length the four bytes behind its
/// checksum give, if it ends within the file; and else a torn one, or a clean
/// end where the file ends.
pub proof fn law_next_record_call(
    reader: &mut RecordReader,
    res: Result<RecordRead, KvsError>,
)
    requires
        call_ensures(RecordReader::next_record, (reader,), res),
        old(reader)@.in_step(),
        old(reader)@.rest.len() <= usize::MAX,
    ensures
        ({
            let (rest, at) = (old(reader)@.rest, old(reader)@.position);
            let size = 8 + rest[4] + 0x100 * rest[5] + 0x1_0000 * rest[6] + 0x100_0000 * rest[7];
            &&& res is Ok
            &&& res->Ok_0@ == (if rest.len() == 0 {
                RecordReadView::CleanEof
            } else if rest.len() < 8 || rest.len() < size {
                RecordReadView::TornTail { position: at }
            } else {
                RecordReadView::Record { position: at, bytes: rest.take(size) }
            })
            &&& 8 <= size <= rest.len() ==> final(reader)@.rest == rest.skip(size)
                && final(reader)@.position == at + size && final(reader)@.in_step()
        }),
{
    let rest = old(reader)@.rest;
    if rest.len() >= 8 {
        law_read_number(rest, 4);
    }
}

/// Where there is no whole record: a header that is cut off is consumed, and so
/// is a header whose record would not end within the file, while the position
/// stays; a body that is cut off is consumed, and the position moves behind
/// where it should have ended. The length of the file never changes.
pub proof fn law_torn_record_call(reader: &mut RecordReader, res: Result<RecordRead, KvsError>)
    requires
        call_ensures(RecordReader::next_record, (reader,), res),
        old(reader)@.header_in_file(),
        old(reader)@.rest.len() <= usize::MAX,
    ensures
        ({
            let (rest, at, end) = (old(reader)@.rest, old(reader)@.position, old(reader)@.file_len);
            let size = 8 + rest[4] + 0x100 * rest[5] + 0x1_0000 * rest[6] + 0x100_0000 * rest[7];
            let torn = RecordReadView::TornTail { position: at };
            let after = final(reader)@;
            &&& after.file_len == end
            &&& rest.len() < 8 ==> {
                &&& after.rest.len() == 0 && after.position == at
                &&& at == end ==> res->Ok_0@ == RecordReadView::CleanEof
                &&& at != end ==> res->Ok_0@ == torn
            }
            &&& rest.len() >= 8 && at + size > end ==> {
                &&& after.rest == rest.skip(8) && after.position == at
                &&& res->Ok_0@ == torn
            }
            &&& 8 <= rest.len() < size && at + size <= end ==> {
                &&& after.rest.len() == 0 && after.position == at + size
                &&& res->Ok_0@ == torn
            }
        }),
{
    let rest = old(reader)@.rest;
    if rest.len() >= 8 {
        law_read_number(rest, 4);
    }
}

/// What is read up to where no frame can be had: nothing at all is the end of
/// the stream; a frame that is cut off is consumed; and of one that states a
/// payload beyond the limit the header is.
pub proof fn law_no_frame_call(
    reader: &mut &[u8],
    res: Result<Option<(u8, Vec<u8>)>, KvsError>,
)
    requires
        call_ensures(read_frame, (reader,), res),
        old(reader)@.len() <= usize::MAX,
    ensures
        ({
            let bytes = old(reader)@;
            let len = bytes[1] + 0x100 * bytes[2] + 0x1_0000 * bytes[3] + 0x100_0000 * bytes[4];
            &&& bytes.len() == 0 <==> res is Ok && res->Ok_0 is None
            &&& bytes.len() == 0 ==> final(reader)@.len() == 0
            &&& bytes.len() >= 5 && len > 16 * 1024 * 1024 ==> {
                &&& res is Err && res->Err_0@ is InvalidData
                &&& final(reader)@ == bytes.skip(5)
            }
            &&& 0 < bytes.len() < 5 || (5 <= bytes.len() < 5 + len && len <= 16 * 1024 * 1024) ==> {
                &&& res is Err && res->Err_0@ is Io
                &&& res->Err_0@->Io_0.kind == ErrorKind::UnexpectedEof
                &&& final(reader)@.len() == 0
            }
        }),
{
    let bytes = old(reader)@;
    if bytes.len() >= 5 {
        law_read_number(bytes, 1);
    }
}

/// The codes that a client is told have texts of their own.
pub proof fn law_code_texts(code: ErrorCode, text: &'static str)
    requires
        call_ensures(ErrorCode::as_str, (&code,), text),
    ensures
        text@ == "Key not found"@ <==> code is KeyNotFound,
        text@ == "Internal server error"@ <==> code is Internal,
        text@ == "Invalid request"@ <==> code is InvalidRequest,
{
    reveal_strlit("Key not found");
    reveal_strlit("Internal server error");
    reveal_strlit("Invalid request");
    assert("Key not found"@.len() == 13);
    assert("Internal server error"@.len() == 21);
    assert("Invalid request"@.len() == 15);
}

/// What is asked of a command is what it was made of.
pub proof fn law_getter_calls(
    command: &Command,
    key: &[u8],
    value: Option<&[u8]>,
    ts: u64,
)
    requires
        call_ensures(Command::get_key, (command,), key),
        call_ensures(Command::get_value, (command,), value),
        call_ensures(Command::get_timestamp, (command,), ts),
    ensures
        match *command {
            Command::Put { ts: t, key: k, value: v } => {
                &&& key@ == k@ && ts == t
                &&& value is Some && value->0@ == v@
            },
            Command::Rm { ts: t, key: k } => key@ == k@ && ts == t && value is None,
        },
{
}

/// Replaying a hint file does to the index what the commands of its data file
/// say, and counts nothing; one that does not end in a sound hint does nothing.
pub proof fn law_hint_replay_call(
    loader: &mut Loader,
    file: LogFile,
    junk: Seq<u8>,
    hint: &[u8],
    sound: bool,
)
    requires
        call_ensures(Loader::replay_hint, (loader, file.id, hint), sound),
        file.storable(),
        hintable(file),
        hint_up_to(hint@, file, file.cmds.len() as int, junk),
    ensures
        sound <==> junk.len() == 0,
        final(loader).writer == old(loader).writer,
        final(loader)@.keydir == (if sound {
            fold_cmds(file.id, file.cmds, old(loader)@).keydir
        } else {
            old(loader)@.keydir
        }),
{
    law_replay_hint(hint@, file, file.cmds.len() as int, junk, old(loader)@);
    assert(file.cmds.take(file.cmds.len() as int) =~= file.cmds);
}

/// A store is made of what was replayed, and its index of its buckets.
pub proof fn law_loaded_call(
    config: Config,
    loader: Loader,
    readers: Vec<u64>,
    store: Bitcask,
    id: u64,
)
    requires
        call_ensures(Bitcask::loaded, (config, loader, readers), store),
    ensures
        store.config == config,
        store.index@ == loader.index@,
        store.writer == loader.writer,
        store.readers@.contains(id) <==> readers@.contains(id),
{
}

/// Ids are kept in order, each once; the highest is the one of the active file,
/// and a store without files starts with the first.
pub proof fn law_id_calls(
    added: &mut Vec<u64>,
    taken: &mut Vec<u64>,
    noted: &mut Vec<u64>,
    picked: &mut Vec<u64>,
    id: u64,
    kind: FileKind,
    active: u64,
    x: u64,
)
    requires
        call_ensures(insert_id, (added, id), ()),
        call_ensures(remove_id, (taken, id), ()),
        call_ensures(note_file, (noted, kind), ()),
        call_ensures(pick_active, (picked,), active),
    ensures
        ascending(final(added)@) && ascending(final(taken)@),
        ascending(final(noted)@) && ascending(final(picked)@),
        final(added)@.contains(x) <==> old(added)@.contains(x) || x == id,
        final(taken)@.contains(x) <==> old(taken)@.contains(x) && x != id,
        final(noted)@.contains(x) <==> old(noted)@.contains(x) || kind == FileKind::Data(x),
        final(picked)@.contains(x) <==> old(picked)@.contains(x) || x == active,
        final(picked)@.contains(x) ==> x <= active,
        old(picked)@.len() == 0 ==> active == 1,
        old(picked)@.len() > 0 ==> old(picked)@.contains(active),
{
}

/// The index is a map from keys to places: what is put in is found under its
/// key until it is taken out or replaced, and no other key is touched.
pub proof fn law_index_calls(
    put: &mut Index,
    rm: &mut Index,
    key: &[u8],
    value: IndexValue,
    previous: Option<IndexValue>,
    gone: Option<IndexValue>,
    other: Seq<u8>,
)
    requires
        call_ensures(Index::insert, (put, key, value), previous),
        call_ensures(Index::remove, (rm, key), gone),
    ensures
        final(put)@.contains_key(key@) && final(put)@[key@] == value,
        !final(rm)@.contains_key(key@),
        previous is Some <==> old(put)@.contains_key(key@),
        previous is Some ==> previous->0 == old(put)@[key@],
        gone is Some <==> old(rm)@.contains_key(key@),
        gone is Some ==> gone->0 == old(rm)@[key@],
        other != key@ ==> {
            &&& final(put)@.contains_key(other) == old(put)@.contains_key(other)
            &&& final(put)@[other] == old(put)@[other]
            &&& final(rm)@.contains_key(other) == old(rm)@.contains_key(other)
            &&& final(rm)@[other] == old(rm)@[other]
        },
{
}

/// Runs of bytes are the same exactly if they are.
pub proof fn law_same_bytes_call(a: &[u8], b: &[u8], same: bool)
    requires
        call_ensures(same_bytes, (a, b), same),
    ensures
        same <==> a@ == b@,
{
}

/// A sealed file that ends in a torn record, or holds a damaged one, fails the
/// merge, which has not changed.
pub proof fn law_copy_call_fails(
    merge: &mut Merge,
    index: &Index,
    data: &[u8],
    file: LogFile,
    tail: Seq<u8>,
    e: KvsErrorView,
    res: Result<Copied, KvsError>,
)
    requires
        call_ensures(Merge::copy_file, (merge, index, data), res),
        file.storable(),
        file.bytes().len() + tail.len() <= usize::MAX,
        file.id == old(merge).sources@[old(merge).next as int].id,
        data@ == file.bytes() + tail,
    ensures
        tail.len() > 0 && incomplete(tail) ==> res is Err && res->Err_0@
            == KvsErrorView::Corruption && *final(merge) == *old(merge),
        damaged(tail, e) ==> res is Err && res->Err_0@ == e && *final(merge) == *old(merge),
{
    let state = CopyState {
        output: old(merge).output->0,
        records: Seq::empty(),
        hints: Seq::empty(),
        pending: pending_views(old(merge).pending@),
    };
    law_merge_refuses_damage(file, index@, tail, e, state);
}

/// The record of a removal holds no value.
pub proof fn law_read_removal(ts: u64, key: Seq<u8>, buf: Vec<u8>, res: Result<
    Option<String>,
    KvsError,
>)
    requires
        (CommandView::Rm { ts, key }).storable(),
        buf@ == (CommandView::Rm { ts, key }).encode(),
        buf@.len() <= usize::MAX,
        call_ensures(Bitcask::read_value, (buf,), res),
    ensures
        res is Ok && res->Ok_0 is None,
{
    law_decode_encode(CommandView::Rm { ts, key }, Seq::empty());
    assert(buf@ + Seq::<u8>::empty() =~= buf@);
}

/// The type byte of a record: 0 is a Put, 1 a removal, and any other is not
/// known.
pub proof fn law_command_type(byte: u8, res: Result<CommandType, KvsError>)
    requires
        call_ensures(Command::get_command_type, (byte,), res),
    ensures
        res is Ok <==> byte <= 1,
        byte == 0 ==> res->Ok_0 == CommandType::Put,
        byte == 1 ==> res->Ok_0 == CommandType::Rm,
        res is Err ==> res->Err_0@ == KvsErrorView::UnexpectedCommandType,
{
}

/// The lengths that are told of a record: that of its body is that of the
/// record less eight, and a header states it least significant byte first.
pub proof fn law_length_calls(
    command: &Command,
    record: Vec<u8>,
    len: usize,
    covered: Vec<u8>,
    header: &[u8],
    stated: usize,
)
    requires
        call_ensures(Command::serialize, (command,), record),
        call_ensures(Command::encoded_body_len, (command,), len),
        call_ensures(Command::covered, (command,), covered),
        call_ensures(Command::body_len, (header,), stated),
        8 <= header@.len() <= usize::MAX,
    ensures
        len + 8 == record@.len(),
        covered@ == record@.skip(4),
        stated == header@[4] + 0x100 * header@[5] + 0x1_0000 * header@[6] + 0x100_0000 * header@[7],
{
    law_encode_len(command@);
    law_stated_len(header@);
    law_u32_round_trip(crc32(command@.covered()));
    assert(covered@ =~= record@.skip(4));
}

/// With the checksum of the bytes that a record covers, decoding goes as
/// without it; with any other, a whole record is corrupt.
pub proof fn law_checked_calls<'a>(
    buf: &'a [u8],
    crc: u32,
    checked: Result<(Command<'a>, usize), KvsError>,
    plain: Result<(Command<'a>, usize), KvsError>,
)
    requires
        call_ensures(Command::deserialize_checked, (buf, crc), checked),
        call_ensures(Command::deserialize, (buf,), plain),
        8 <= buf@.len() <= usize::MAX,
        8 + stated_body_len(buf@) <= buf@.len(),
    ensures
        crc == crc32(buf@.subrange(4, 8 + stated_body_len(buf@))) ==> {
            &&& checked is Ok <==> plain is Ok
            &&& checked is Ok ==> checked->Ok_0.0@ == plain->Ok_0.0@ && checked->Ok_0.1
                == plain->Ok_0.1
            &&& checked is Err ==> checked->Err_0@ == plain->Err_0@
        },
        crc != u32_of(buf@.subrange(0, 4)) ==> checked is Err && checked->Err_0@
            == KvsErrorView::Corruption,
{
}

/// Trimming, taking off a suffix and comparing texts.
pub proof fn law_text_calls<'a>(
    s: &'a str,
    pad: Seq<char>,
    text: Seq<char>,
    end_pad: Seq<char>,
    trimmed_text: &'a str,
    suffix: &str,
    stem: Option<&'a str>,
    same: bool,
    chars: Vec<char>,
)
    requires
        blank(pad) && blank(end_pad),
        text.len() > 0 ==> !is_space(text[0]) && !is_space(text.last()),
        s@ == pad + text + end_pad,
        call_ensures(trim, (s,), trimmed_text),
        call_ensures(strip_suffix, (s, suffix), stem),
        call_ensures(same_text, (s, suffix), same),
        call_ensures(chars_of, (s,), chars),
    ensures
        trimmed_text@ == text,
        stem is Some ==> s@ == stem->0@ + suffix@,
        stem is None ==> !exists|front: Seq<char>| s@ == #[trigger] (front + suffix@),
        same <==> s@ == suffix@,
        chars@ == s@,
{
    law_trimmed(pad, text, end_pad);
    if stem is Some {
        assert(s@ =~= s@.take(s@.len() - suffix@.len()) + s@.skip(s@.len() - suffix@.len()));
    } else {
        assert forall|front: Seq<char>| s@ != #[trigger] (front + suffix@) by {
            if s@ == front + suffix@ {
                assert(s@.skip(s@.len() - suffix@.len()) =~= suffix@);
            }
        }
    }
}

/// What a file is, and which data file it is, going by its name.
pub proof fn law_name_calls(
    name: &str,
    kind: FileKind,
    id: Option<u64>,
    stem: &str,
    number: Option<u64>,
)
    requires
        call_ensures(file_kind, (name,), kind),
        call_ensures(get_file_id, (name,), id),
        call_ensures(parse_id, (stem,), number),
    ensures
        id is Some <==> kind is Data,
        id is Some ==> kind == FileKind::Data(id->0),
        name@ == stem@ + ".data"@ ==> id == number,
        name@ == stem@ + ".hint"@ && number is Some ==> kind == FileKind::Hint(number->0),
        name@ == stem@ + ".hint"@ && number is None ==> kind == FileKind::Foreign,
        name@ == stem@ + ".data.compact"@ ==> kind == FileKind::Leftover,
{
    law_kinds(name@, stem@);
}

/// Reads of the index find what it holds for a key, and nothing else; the
/// bucket of a key is the part of the index that holds it.
pub proof fn law_index_reads(
    index: &Index,
    empty: Index,
    key: &[u8],
    found: Option<&IndexValue>,
    bucket: &Bucket,
    in_bucket: Option<&IndexValue>,
    has: bool,
)
    requires
        call_ensures(Index::empty, (), empty),
        call_ensures(Index::get, (index, key), found),
        call_ensures(Index::read_access, (index, key), bucket),
        call_ensures(Bucket::get, (bucket, key), in_bucket),
        call_ensures(Bucket::contains_key, (bucket, key), has),
    ensures
        !empty@.contains_key(key@),
        found is Some <==> index@.contains_key(key@),
        found is Some ==> *found->0 == index@[key@],
        in_bucket is Some <==> found is Some,
        in_bucket is Some ==> *in_bucket->0 == *found->0,
        has <==> found is Some,
{
}

/// One bucket is a map as well.
pub proof fn law_bucket_calls(
    fresh: Bucket,
    put: &mut Bucket,
    rm: &mut Bucket,
    key: &[u8],
    value: IndexValue,
    previous: Option<IndexValue>,
    gone: Option<IndexValue>,
    other: Seq<u8>,
)
    requires
        call_ensures(Bucket::new, (), fresh),
        call_ensures(Bucket::insert, (put, key, value), previous),
        call_ensures(Bucket::remove, (rm, key), gone),
    ensures
        !fresh@.contains_key(other),
        final(put)@.contains_key(key@) && final(put)@[key@] == value,
        !final(rm)@.contains_key(key@),
        previous is Some <==> old(put)@.contains_key(key@),
        previous is Some ==> previous->0 == old(put)@[key@],
        gone is Some <==> old(rm)@.contains_key(key@),
        gone is Some ==> gone->0 == old(rm)@[key@],
        other != key@ ==> {
            &&& final(put)@.contains_key(other) == old(put)@.contains_key(other)
            &&& final(put)@[other] == old(put)@[other]
            &&& final(rm)@.contains_key(other) == old(rm)@.contains_key(other)
            &&& final(rm)@[other] == old(rm)@[other]
        },
{
}

/// Replaying the data of a file, record by record: what its commands say, and
/// where an incomplete record at its end starts, if that is the active file;
/// in any other it is corruption.
pub proof fn law_replay_call(
    loader: &mut Loader,
    file: LogFile,
    tail: Seq<u8>,
    data: &[u8],
    res: Result<Option<u64>, KvsError>,
)
    requires
        call_ensures(Loader::replay_data, (loader, file.id, data), res),
        file.storable(),
        incomplete(tail),
        data@ == file.bytes() + tail,
        data@.len() <= usize::MAX,
    ensures
        ({
            let start = ReplayState { offset: 0, ..old(loader)@ };
            let active = file.id == old(loader).writer.current_file_id;
            &&& tail.len() == 0 ==> res == Ok::<Option<u64>, KvsError>(None)
            &&& tail.len() > 0 && active ==> res == Ok::<Option<u64>, KvsError>(
                Some(file.bytes().len() as u64),
            )
            &&& tail.len() > 0 && !active ==> res is Err && res->Err_0@ == KvsErrorView::Corruption
            &&& final(loader)@.keydir == fold_cmds(file.id, file.cmds, start).keydir
            &&& final(loader)@.stale == fold_cmds(file.id, file.cmds, start).stale
            &&& res is Ok ==> final(loader).writer.offset == file.bytes().len()
        }),
{
    law_replay_data(file, tail, ReplayState { offset: 0, ..old(loader)@ });
    lemma_fold_counts(file.id, file.cmds, ReplayState { offset: 0, ..old(loader)@ });
}

/// A frame that is fed piece by piece: what has been fed is kept in its order,
/// and the frame is there when all of it has been fed.
pub proof fn law_frame_reader_calls(
    fresh: FrameReader,
    reader: &mut FrameReader,
    piece: &[u8],
    msg_type: u8,
    payload: Seq<u8>,
    step: FrameStep,
    fed: &FrameReader,
)
    requires
        call_ensures(FrameReader::new, (), fresh),
        call_ensures(FrameReader::feed, (reader, piece), ()),
        call_ensures(FrameReader::step, (fed,), step),
        payload.len() <= MAX_PAYLOAD,
        fed@.len() <= frame(msg_type, payload).len(),
        fed@ == frame(msg_type, payload).take(fed@.len() as int),
    ensures
        fresh@.len() == 0,
        final(reader)@ == old(reader)@ + piece@,
        match step {
            FrameStep::Need(n) => {
                &&& fed@.len() < frame(msg_type, payload).len()
                &&& fed@.len() == 0 ==> n == 1
                &&& 0 < fed@.len() < 5 ==> fed@.len() + n == 5
                &&& fed@.len() >= 5 ==> fed@.len() + n == frame(msg_type, payload).len()
            },
            FrameStep::Frame(t, p) => {
                &&& fed@.len() == frame(msg_type, payload).len()
                &&& t == msg_type
                &&& p@ == payload
            },
            FrameStep::Fail(_) => false,
        },
{
    law_frame_in_pieces(msg_type, payload, fed@.len() as int);
}

/// Carrying out a request makes the one call that it asks for, and replies what
/// that returned: a read with the value, a write with that it is done.
pub proof fn law_execute<C: OneCall>(
    store: C,
    before: Map<Seq<char>, Seq<char>>,
    after: Map<Seq<char>, Seq<char>>,
    req: Request,
    resp: Response,
)
    requires
        acts_on(store, before, after),
        call_ensures(execute::<C>, (store, req), resp),
    ensures
        match req {
            Request::Get { key } => after == before && resp@ == (if before.contains_key(key@) {
                ResponseView::Value(before[key@])
            } else {
                ResponseView::Error(ErrorCode::KeyNotFound)
            }),
            Request::Put { key, value } => after == before.insert(key@, value@) && resp@
                == ResponseView::Done,
            Request::Rm { key } => after == before.remove(key@) && resp@ == (
            if before.contains_key(key@) {
                ResponseView::Done
            } else {
                ResponseView::Error(ErrorCode::KeyNotFound)
            }),
        },
{
    if let Request::Rm { key } = req {
        if !before.contains_key(key@) {
            assert(before.remove(key@) =~= before);
        }
    }
}

/// What is replied to a result, and what a client makes of a reply: a value is
/// a value, what is done is done, and an error that is told is an error of its
/// kind.
pub proof fn law_reply_calls(
    got: Result<Option<String>, KvsError>,
    done: Result<(), KvsError>,
    value: Response,
    ack: Response,
    payload: Vec<u8>,
    learned: Result<Response, KvsError>,
)
    requires
        call_ensures(get_response, (got,), value),
        call_ensures(write_result_response, (done,), ack),
        payload@ == ack@.payload(),
        call_ensures(receive, (Some((ack@.msg_type(), payload)),), learned),
    ensures
        value@ is Value <==> got is Ok && got->Ok_0 is Some,
        value@ is Value ==> value@->Value_0 == got->Ok_0->0@,
        got is Ok && got->Ok_0 is None ==> value@ == ResponseView::Error(ErrorCode::KeyNotFound),
        ack@ is Done <==> done is Ok,
        learned is Ok <==> done is Ok,
        done is Ok ==> learned->Ok_0@ is Done,
        done is Err ==> {
            &&& learned->Err_0@ is KeyNotFound <==> done->Err_0 is KeyNotFound
            &&& learned->Err_0@ is InvalidData <==> done->Err_0 is InvalidData
            &&& learned->Err_0@ is ServerInternal <==> !(done->Err_0 is KeyNotFound)
                && !(done->Err_0 is InvalidData)
        },
{
    law_response_round_trip(ack@);
}

/// A writer, a loader and a store that start: at the start of a file, with
/// nothing counted, and with what was replayed.
pub proof fn law_new_calls(
    id: u64,
    now: u64,
    writer: WriterState,
    loader: Loader,
    wanted: bool,
    file_id: u64,
    key: Seq<u8>,
)
    requires
        call_ensures(WriterState::new, (id, now), writer),
        call_ensures(Loader::new, (id, now), loader),
        call_ensures(Loader::wants_hint, (&loader, file_id), wanted),
    ensures
        writer.current_file_id == id && writer.last_ts_flushed == now,
        writer.offset == 0 && writer.flushed_offset == 0 && writer.stale_bytes_count == 0,
        loader.writer == writer,
        !loader.index@.contains_key(key),
        wanted <==> file_id != id,
{
}

} // verus!
