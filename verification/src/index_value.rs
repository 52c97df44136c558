//! Hint-file records.
//!
//! Record format (all integers little-endian):
//!
//! ```text
//! [u32 crc][u32 body_len][u32 key_len][key][u64 ts][u64 offset][u64 len]
//! ```
//!
//! The crc covers `body_len` and the body, not itself.
//!
//! A record does not carry a file id: a hint file is named after the data
//! file it describes (000001.hint -> 000001.data), so the id comes from the
//! file name and is supplied to `deserialize` by the caller.
use vstd::prelude::*;

use crate::bytes_util::{law_u32_bytes, law_u32_round_trip, law_u64_bytes, law_u64_round_trip};
use crate::bytes_util::{le32, le64, read_bytes_at, read_u32_at, read_u64_at, u32_of, u64_of};
use crate::bytes_util::{push_bytes, push_u32, push_u64, BytesUtil};
use crate::checksum::{crc32, law_changed_byte};
use crate::command::{law_stated_len, lemma_changed_number, seal, stated_body_len};
use crate::error::{io_error, ErrorKind, KvsError, KvsErrorView};

verus! {

/// The length of the crc field.
pub const CRC_LEN: usize = 4;

/// The length of the key length field.
pub const KEY_LEN_LEN: usize = 4;

/// The length of ts, offset and len.
pub const INDEX_VALUE_LEN: usize = 24;

/// [u32 crc][u32 body_len].
pub const HEADER_LEN: usize = 8;

/// Where the latest record of a key stands: the file, the time of the record,
/// its offset in the file and its length.
#[derive(Debug, Clone, Copy, PartialEq, Eq, Structural)]
pub struct IndexValue {
    pub file_id: u64,
    pub ts: u64,
    pub offset: u64,
    pub len: usize,
}

/// The bytes of a hint that its crc covers.
pub open spec fn hint_covered(key: Seq<u8>, value: IndexValue) -> Seq<u8> {
    le32((28 + key.len()) as u32) + le32(key.len() as u32) + key + le64(value.ts) + le64(
        value.offset,
    ) + le64(value.len as u64)
}

/// The whole hint record of a key.
pub open spec fn encode_hint(key: Seq<u8>, value: IndexValue) -> Seq<u8> {
    le32(crc32(hint_covered(key, value))) + hint_covered(key, value)
}

/// The error of a hint whose body runs past the end of the buffer.
pub open spec fn incomplete_index_value() -> KvsErrorView {
    io_error(ErrorKind::UnexpectedEof, "incomplete index value"@)
}

/// Where the hint at the front of the buffer ends.
pub open spec fn hint_end(buf: Seq<u8>) -> Result<int, KvsErrorView> {
    match (read_u32_at(buf, 0), read_u32_at(buf, 4)) {
        (Err(e), _) => Err(KvsErrorView::Io(e)),
        (_, Err(e)) => Err(KvsErrorView::Io(e)),
        (Ok(_), Ok(body_len)) => if buf.len() < 8 + body_len {
            Err(incomplete_index_value())
        } else {
            Ok(8 + body_len)
        },
    }
}

/// What the numbers behind the key of a hint decode to.
pub open spec fn decode_hint_numbers(record: Seq<u8>, at: int, file_id: u64) -> Result<
    IndexValue,
    KvsErrorView,
> {
    match (read_u64_at(record, at), read_u64_at(record, at + 8), read_u64_at(record, at + 16)) {
        (Ok(ts), Ok(offset), Ok(len)) => if len > usize::MAX {
            Err(KvsErrorView::Corruption)
        } else {
            Ok(IndexValue { file_id, ts, offset, len: len as usize })
        },
        _ => Err(KvsErrorView::Corruption),
    }
}

/// What the fields of a whole hint decode to. A hint is sound only if its
/// fields end exactly where it ends: one whose key length says otherwise is
/// corrupt, whatever stands behind it.
pub open spec fn decode_hint_fields(record: Seq<u8>, file_id: u64) -> Result<
    (Seq<u8>, IndexValue),
    KvsErrorView,
> {
    match read_u32_at(record, 8) {
        Err(_) => Err(KvsErrorView::Corruption),
        Ok(key_len) => match read_bytes_at(record, 12, key_len as int) {
            Err(_) => Err(KvsErrorView::Corruption),
            Ok(key) => match decode_hint_numbers(record, 12 + key_len, file_id) {
                Err(e) => Err(e),
                Ok(value) => if 36 + key_len == record.len() {
                    Ok((key, value))
                } else {
                    Err(KvsErrorView::Corruption)
                },
            },
        },
    }
}

/// What the hint at the front of the buffer decodes to, given the checksum of
/// the bytes that it covers: the key, its value, and the length of the hint.
pub open spec fn decode_hint_checked(buf: Seq<u8>, file_id: u64, actual_crc: u32) -> Result<
    (Seq<u8>, IndexValue, int),
    KvsErrorView,
> {
    match hint_end(buf) {
        Err(e) => Err(e),
        Ok(end) => if actual_crc != u32_of(buf.subrange(0, 4)) {
            Err(KvsErrorView::Corruption)
        } else {
            match decode_hint_fields(buf.take(end), file_id) {
                Err(e) => Err(e),
                Ok((key, value)) => Ok((key, value, end)),
            }
        },
    }
}

/// What the hint at the front of the buffer decodes to.
pub open spec fn decode_hint(buf: Seq<u8>, file_id: u64) -> Result<
    (Seq<u8>, IndexValue, int),
    KvsErrorView,
> {
    decode_hint_checked(buf, file_id, crc32(buf.subrange(4, 8 + stated_body_len(buf))))
}

impl IndexValue {
    /// The hint record that says where `key` stands.
    pub fn serialize(&self, key: &[u8]) -> (buf: Vec<u8>)
        requires
            key@.len() + HEADER_LEN + KEY_LEN_LEN + INDEX_VALUE_LEN <= usize::MAX,
        ensures
            buf@ == encode_hint(key@, *self),
    {
        let covered: Vec<u8> = self.covered(key);
        seal(crc32fast::hash(covered.as_slice()), covered.as_slice())
    }

    /// The bytes of the hint record that its crc covers.
    pub fn covered(&self, key: &[u8]) -> (buf: Vec<u8>)
        requires
            key@.len() + HEADER_LEN + KEY_LEN_LEN + INDEX_VALUE_LEN <= usize::MAX,
        ensures
            buf@ == hint_covered(key@, *self),
    {
        let body_len: usize = KEY_LEN_LEN + key.len() + INDEX_VALUE_LEN;
        let mut buf: Vec<u8> = Vec::new();
        push_u32(&mut buf, body_len as u32);
        push_u32(&mut buf, key.len() as u32);
        push_bytes(&mut buf, key);
        push_u64(&mut buf, self.ts);
        push_u64(&mut buf, self.offset);
        push_u64(&mut buf, self.len as u64);
        assert(buf@ =~= hint_covered(key@, *self));
        buf
    }

    /// Decodes the hint at the front of the buffer: the key, where it stands,
    /// and the number of bytes that the hint takes.
    pub fn deserialize<'a>(buf: &'a [u8], file_id: u64) -> (res: Result<
        (&'a [u8], IndexValue, usize),
        KvsError,
    >)
        ensures
            match decode_hint(buf@, file_id) {
                Ok((key, value, used)) => {
                    &&& res is Ok
                    &&& res->Ok_0.0@ == key
                    &&& res->Ok_0.1 == value
                    &&& res->Ok_0.2 == used
                },
                Err(e) => res is Err && res->Err_0@ == e,
            },
    {
        match hint_len(buf) {
            Err(e) => Err(e),
            Ok(end) => {
                let covered = vstd::slice::slice_subrange(buf, CRC_LEN, end);
                IndexValue::deserialize_checked(buf, file_id, crc32fast::hash(covered))
            },
        }
    }

    /// Decodes the hint at the front of the buffer, given the checksum of the
    /// bytes that it covers.
    pub fn deserialize_checked<'a>(buf: &'a [u8], file_id: u64, actual_crc: u32) -> (res: Result<
        (&'a [u8], IndexValue, usize),
        KvsError,
    >)
        ensures
            match decode_hint_checked(buf@, file_id, actual_crc) {
                Ok((key, value, used)) => {
                    &&& res is Ok
                    &&& res->Ok_0.0@ == key
                    &&& res->Ok_0.1 == value
                    &&& res->Ok_0.2 == used
                },
                Err(e) => res is Err && res->Err_0@ == e,
            },
    {
        let mut cursor: usize = 0;
        let stored_crc: u32 = match BytesUtil::read_u32(buf, &mut cursor) {
            Ok(crc) => crc,
            Err(e) => return Err(KvsError::Io(e)),
        };
        let record_end: usize = match hint_len(buf) {
            Ok(end) => end,
            Err(e) => return Err(e),
        };
        if actual_crc != stored_crc {
            return Err(KvsError::Corruption);
        }
        let record = vstd::slice::slice_subrange(buf, 0, record_end);
        assert(record@ =~= buf@.take(record_end as int));
        match IndexValue::read_fields(record, file_id) {
            Ok((key, value)) => Ok((key, value, record_end)),
            Err(e) => Err(e),
        }
    }

    /// Decodes the fields of a whole hint.
    fn read_fields<'a>(record: &'a [u8], file_id: u64) -> (res: Result<
        (&'a [u8], IndexValue),
        KvsError,
    >)
        ensures
            match decode_hint_fields(record@, file_id) {
                Ok((key, value)) => {
                    &&& res is Ok
                    &&& res->Ok_0.0@ == key
                    &&& res->Ok_0.1 == value
                },
                Err(e) => res is Err && res->Err_0@ == e,
            },
    {
        let mut cursor: usize = HEADER_LEN;
        let key_len: usize = match BytesUtil::read_u32(record, &mut cursor) {
            Ok(len) => len as usize,
            Err(_) => return Err(KvsError::Corruption),
        };
        let key = match BytesUtil::read_bytes(record, &mut cursor, key_len) {
            Ok(key) => key,
            Err(_) => return Err(KvsError::Corruption),
        };
        let ts: u64 = match BytesUtil::read_u64(record, &mut cursor) {
            Ok(ts) => ts,
            Err(_) => return Err(KvsError::Corruption),
        };
        let offset: u64 = match BytesUtil::read_u64(record, &mut cursor) {
            Ok(offset) => offset,
            Err(_) => return Err(KvsError::Corruption),
        };
        let len: u64 = match BytesUtil::read_u64(record, &mut cursor) {
            Ok(len) => len,
            Err(_) => return Err(KvsError::Corruption),
        };
        if len > usize::MAX as u64 {
            return Err(KvsError::Corruption);
        }
        if cursor != record.len() {
            return Err(KvsError::Corruption);
        }
        Ok((key, IndexValue { file_id, ts, offset, len: len as usize }))
    }
}

/// Where the hint at the front of the buffer ends.
fn hint_len(buf: &[u8]) -> (res: Result<usize, KvsError>)
    ensures
        match hint_end(buf@) {
            Ok(end) => res is Ok && res->Ok_0 == end && HEADER_LEN <= end <= buf@.len(),
            Err(e) => res is Err && res->Err_0@ == e,
        },
{
    let size: usize = buf.len();
    let mut cursor: usize = 0;
    match BytesUtil::read_u32(buf, &mut cursor) {
        Ok(_) => {},
        Err(e) => return Err(KvsError::Io(e)),
    }
    let body_len: usize = match BytesUtil::read_u32(buf, &mut cursor) {
        Ok(len) => len as usize,
        Err(e) => return Err(KvsError::Io(e)),
    };
    if size - HEADER_LEN < body_len {
        return Err(KvsError::io(ErrorKind::UnexpectedEof, "incomplete index value"));
    }
    Ok(HEADER_LEN + body_len)
}

/// The hint record of a key is as long as its header, its key and its numbers.
pub proof fn law_encode_hint_len(key: Seq<u8>, value: IndexValue)
    ensures
        hint_covered(key, value).len() == 32 + key.len(),
        encode_hint(key, value).len() == 36 + key.len(),
{
    law_u32_round_trip(crc32(hint_covered(key, value)));
    law_u32_round_trip((28 + key.len()) as u32);
    law_u32_round_trip(key.len() as u32);
    law_u64_round_trip(value.ts);
    law_u64_round_trip(value.offset);
    law_u64_round_trip(value.len as u64);
}

/// Reading a hint back gives the key and the place that were written, under
/// the file id that the reader supplies, and takes exactly the bytes of that
/// hint, whatever stands behind it.
pub proof fn law_decode_encode_hint(key: Seq<u8>, value: IndexValue, file_id: u64, rest: Seq<u8>)
    requires
        28 + key.len() <= u32::MAX,
        encode_hint(key, value).len() + rest.len() <= usize::MAX,
    ensures
        decode_hint(encode_hint(key, value) + rest, file_id) == Ok::<
            (Seq<u8>, IndexValue, int),
            KvsErrorView,
        >((key, (IndexValue { file_id, ..value }), encode_hint(key, value).len() as int)),
{
    let buf = encode_hint(key, value) + rest;
    let key_len = key.len() as int;
    law_encode_hint_len(key, value);
    law_u32_round_trip(crc32(hint_covered(key, value)));
    law_u32_round_trip((28 + key.len()) as u32);
    law_u32_round_trip(key.len() as u32);
    law_u64_round_trip(value.ts);
    law_u64_round_trip(value.offset);
    law_u64_round_trip(value.len as u64);
    assert(buf.subrange(0, 4) =~= le32(crc32(hint_covered(key, value))));
    assert(buf.subrange(4, 8) =~= le32((28 + key.len()) as u32));
    assert(buf.subrange(4, 36 + key_len) =~= hint_covered(key, value));
    let record = encode_hint(key, value);
    assert(buf.take(36 + key_len) =~= record);
    assert(record.subrange(8, 12) =~= le32(key.len() as u32));
    assert(record.subrange(12, 12 + key_len) =~= key);
    assert(record.subrange(12 + key_len, 20 + key_len) =~= le64(value.ts));
    assert(record.subrange(20 + key_len, 28 + key_len) =~= le64(value.offset));
    assert(record.subrange(28 + key_len, 36 + key_len) =~= le64(value.len as u64));
}

/// What decodes as a hint was written by an encode: no other bytes are taken
/// for one.
pub proof fn law_encode_decode_hint(buf: Seq<u8>, file_id: u64)
    requires
        decode_hint(buf, file_id) is Ok,
    ensures
        ({
            let (key, value, used) = decode_hint(buf, file_id)->Ok_0;
            &&& value.file_id == file_id
            &&& 28 + key.len() <= u32::MAX
            &&& used <= buf.len()
            &&& buf.take(used) == encode_hint(key, value)
        }),
{
    let (key, value, used) = decode_hint(buf, file_id)->Ok_0;
    let record = buf.take(used);
    let key_len = key.len() as int;
    law_encode_hint_len(key, value);
    law_u32_bytes(record.subrange(0, 4));
    law_u32_bytes(record.subrange(4, 8));
    law_u32_bytes(record.subrange(8, 12));
    law_u64_bytes(record.subrange(12 + key_len, 20 + key_len));
    law_u64_bytes(record.subrange(20 + key_len, 28 + key_len));
    law_u64_bytes(record.subrange(28 + key_len, 36 + key_len));
    assert(record.subrange(0, 4) =~= buf.subrange(0, 4));
    assert(record.subrange(4, 8) =~= buf.subrange(4, 8));
    assert(buf.subrange(4, used) =~= hint_covered(key, value));
    assert(record =~= encode_hint(key, value));
}

/// A hint of which the tail is missing is reported as incomplete, never as
/// corrupt.
pub proof fn law_truncated_hint(key: Seq<u8>, value: IndexValue, file_id: u64, n: int)
    requires
        28 + key.len() <= u32::MAX,
        encode_hint(key, value).len() <= usize::MAX,
        0 <= n < encode_hint(key, value).len(),
    ensures
        decode_hint(encode_hint(key, value).take(n), file_id) is Err,
        decode_hint(encode_hint(key, value).take(n), file_id)->Err_0 is Io,
        decode_hint(encode_hint(key, value).take(n), file_id)->Err_0->Io_0.kind
            == ErrorKind::UnexpectedEof,
{
    let buf = encode_hint(key, value).take(n);
    law_encode_hint_len(key, value);
    law_u32_round_trip(crc32(hint_covered(key, value)));
    law_u32_round_trip((28 + key.len()) as u32);
    if n >= 8 {
        assert(buf.subrange(4, 8) =~= le32((28 + key.len()) as u32));
    }
}

/// Only an incomplete hint is reported as one: where the end of the input is
/// met, either the header or the body that it states is not all there.
pub proof fn law_hint_eof_means_incomplete(buf: Seq<u8>, file_id: u64)
    requires
        buf.len() <= usize::MAX,
        decode_hint(buf, file_id) is Err,
        decode_hint(buf, file_id)->Err_0 is Io,
    ensures
        buf.len() < 8 || buf.len() < 8 + stated_body_len(buf),
{
}

/// A hint of which one byte is changed, whichever it is, is refused, and so is
/// one of which one bit is flipped. It is reported as corrupt unless it is the
/// length field that was changed.
pub proof fn law_changed_hint(
    key: Seq<u8>,
    value: IndexValue,
    file_id: u64,
    rest: Seq<u8>,
    i: int,
    b: u8,
)
    requires
        28 + key.len() <= u32::MAX,
        encode_hint(key, value).len() + rest.len() <= usize::MAX,
        0 <= i < encode_hint(key, value).len(),
        encode_hint(key, value)[i] != b,
    ensures
        decode_hint((encode_hint(key, value) + rest).update(i, b), file_id) is Err,
        (i < 4 || i >= 8) ==> decode_hint((encode_hint(key, value) + rest).update(i, b), file_id)
            == Err::<(Seq<u8>, IndexValue, int), KvsErrorView>(KvsErrorView::Corruption),
{
    let record = encode_hint(key, value);
    let covered = hint_covered(key, value);
    let whole = record + rest;
    let buf = whole.update(i, b);
    let end = record.len() as int;
    law_encode_hint_len(key, value);
    law_u32_round_trip(crc32(covered));
    law_u32_round_trip((28 + key.len()) as u32);
    law_u32_round_trip(key.len() as u32);
    assert(whole.subrange(0, 4) =~= le32(crc32(covered)));
    assert(whole.subrange(4, 8) =~= le32((28 + key.len()) as u32));
    assert(whole.subrange(4, end) =~= covered);
    assert(buf[i] == b && whole[i] == record[i]);
    if i < 4 {
        assert(buf.subrange(4, 8) =~= whole.subrange(4, 8));
        assert(buf.subrange(4, end) =~= whole.subrange(4, end));
        assert(buf.subrange(0, 4)[i] != whole.subrange(0, 4)[i]);
        lemma_changed_number(buf.subrange(0, 4), whole.subrange(0, 4));
    } else if i >= 8 {
        assert(buf.subrange(4, 8) =~= whole.subrange(4, 8));
        assert(buf.subrange(0, 4) =~= whole.subrange(0, 4));
        assert(buf.subrange(4, end) =~= covered.update(i - 4, b));
        assert(covered[i - 4] == record[i]);
        law_changed_byte(covered, i - 4, b);
    } else {
        assert(buf.subrange(4, 8)[i - 4] != whole.subrange(4, 8)[i - 4]);
        lemma_changed_number(buf.subrange(4, 8), whole.subrange(4, 8));
        assert(record.subrange(8, 12) =~= le32(key.len() as u32));
        if decode_hint(buf, file_id) is Ok {
            let used = decode_hint(buf, file_id)->Ok_0.2;
            assert(buf.take(used).subrange(8, 12) =~= record.subrange(8, 12));
        }
    }
}

/// The layout of a hint: checksum of all that follows, length of the body, the
/// key behind its length, and the three numbers.
pub proof fn law_hint_layout(key: Seq<u8>, value: IndexValue)
    requires
        28 + key.len() <= u32::MAX,
    ensures
        ({
            let r = encode_hint(key, value);
            let k = key.len() as int;
            &&& r.len() == 36 + k
            &&& u32_of(r.subrange(0, 4)) == crc32(r.skip(4))
            &&& u32_of(r.subrange(4, 8)) == r.len() - 8
            &&& u32_of(r.subrange(8, 12)) == k
            &&& r.subrange(12, 12 + k) == key
            &&& u64_of(r.subrange(12 + k, 20 + k)) == value.ts
            &&& u64_of(r.subrange(20 + k, 28 + k)) == value.offset
            &&& u64_of(r.subrange(28 + k, 36 + k)) == value.len
        }),
{
    let r = encode_hint(key, value);
    let k = key.len() as int;
    law_encode_hint_len(key, value);
    law_u32_round_trip(crc32(hint_covered(key, value)));
    law_u32_round_trip((28 + key.len()) as u32);
    law_u32_round_trip(key.len() as u32);
    law_u64_round_trip(value.ts);
    law_u64_round_trip(value.offset);
    law_u64_round_trip(value.len as u64);
    assert(r.subrange(0, 4) =~= le32(crc32(hint_covered(key, value))));
    assert(r.skip(4) =~= hint_covered(key, value));
    assert(r.subrange(4, 8) =~= le32((28 + key.len()) as u32));
    assert(r.subrange(8, 12) =~= le32(key.len() as u32));
    assert(r.subrange(12, 12 + k) =~= key);
    assert(r.subrange(12 + k, 20 + k) =~= le64(value.ts));
    assert(r.subrange(20 + k, 28 + k) =~= le64(value.offset));
    assert(r.subrange(28 + k, 36 + k) =~= le64(value.len as u64));
}

/// How a hint fails: an incomplete one with the end of the input, any other as
/// corrupt.
pub proof fn law_hint_errors(buf: Seq<u8>, file_id: u64)
    requires
        buf.len() <= usize::MAX,
        decode_hint(buf, file_id) is Err,
    ensures
        ({
            let size = 8 + buf[4] + 0x100 * buf[5] + 0x1_0000 * buf[6] + 0x100_0000 * buf[7];
            let e = decode_hint(buf, file_id)->Err_0;
            if buf.len() < 8 || buf.len() < size {
                e is Io && e->Io_0.kind == ErrorKind::UnexpectedEof
            } else {
                e == KvsErrorView::Corruption
            }
        }),
{
    if buf.len() >= 8 {
        law_stated_len(buf);
    }
}

} // verus!
