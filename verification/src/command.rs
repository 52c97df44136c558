//! Log record encoding and decoding.
//!
//! Record format (all integers little-endian):
//!
//! ```text
//! [u32 crc][u32 body_len][body]
//!
//! body (Put): [u64 ts][u8 type=0][u32 key_len][key][u32 value_len][value]
//! body (Rm):  [u64 ts][u8 type=1][u32 key_len][key]
//! ```
//!
//! The crc (CRC-32/IEEE) covers `body_len` and `body`, not itself.
//! `deserialize` returns `Io(UnexpectedEof)` for incomplete records
//! (torn writes) and `Corruption` for records whose bytes don't match
//! their crc: callers rely on that distinction.
use vstd::prelude::*;

use crate::bytes_util::{push_bytes, push_u32, push_u64, BytesUtil};
use crate::bytes_util::{law_read_number, law_u32_bytes, law_u32_round_trip, law_u64_bytes, law_u64_round_trip};
use crate::bytes_util::{le32, le64, read_bytes_at, read_u32_at, read_u64_at, read_u8_at, u32_of, u64_of};
use crate::checksum::{crc32, law_changed_byte};
use crate::error::{io_error, ErrorKind, KvsError, KvsErrorView};

verus! {

/// [u32 crc][u32 body_len]: the crc covers body_len and the body.
pub const HEADER_LEN: usize = 8;

/// The length of the crc field.
pub const CRC_LEN: usize = 4;

/// One record of the log.
#[derive(Debug, PartialEq, Eq)]
pub enum Command<'a> {
    /// The key has this value from now on.
    Put { ts: u64, key: &'a [u8], value: &'a [u8] },
    /// The key is gone from now on.
    Rm { ts: u64, key: &'a [u8] },
}

/// The view of a [`Command`].
pub enum CommandView {
    Put { ts: u64, key: Seq<u8>, value: Seq<u8> },
    Rm { ts: u64, key: Seq<u8> },
}

impl CommandView {
    /// The key that the command is about.
    pub open spec fn key(self) -> Seq<u8> {
        match self {
            CommandView::Put { key, .. } => key,
            CommandView::Rm { key, .. } => key,
        }
    }

    /// The value that the command gives the key.
    pub open spec fn value(self) -> Option<Seq<u8>> {
        match self {
            CommandView::Put { value, .. } => Some(value),
            CommandView::Rm { .. } => None,
        }
    }

    /// The time at which the command was given.
    pub open spec fn ts(self) -> u64 {
        match self {
            CommandView::Put { ts, .. } => ts,
            CommandView::Rm { ts, .. } => ts,
        }
    }

    /// The length of the body.
    pub open spec fn body_len(self) -> nat {
        match self {
            CommandView::Put { key, value, .. } => 17 + key.len() + value.len(),
            CommandView::Rm { key, .. } => 13 + key.len(),
        }
    }

    /// The body: timestamp, type, and each byte run behind its length.
    pub open spec fn body(self) -> Seq<u8> {
        match self {
            CommandView::Put { ts, key, value } => le64(ts) + seq![0u8] + le32(key.len() as u32)
                + key + le32(value.len() as u32) + value,
            CommandView::Rm { ts, key } => le64(ts) + seq![1u8] + le32(key.len() as u32) + key,
        }
    }

    /// What the crc covers: the length of the body, and the body.
    pub open spec fn covered(self) -> Seq<u8> {
        le32(self.body_len() as u32) + self.body()
    }

    /// The whole record.
    pub open spec fn encode(self) -> Seq<u8> {
        le32(crc32(self.covered())) + self.covered()
    }

    /// Whether the length field can hold the length of the body.
    pub open spec fn storable(self) -> bool {
        self.body_len() <= u32::MAX
    }
}

/// The error of a record whose body runs past the end of the buffer.
pub open spec fn incomplete_command() -> KvsErrorView {
    io_error(ErrorKind::UnexpectedEof, "incomplete command"@)
}

/// The body length that the header of a record states.
pub open spec fn stated_body_len(buf: Seq<u8>) -> int {
    u32_of(buf.subrange(4, 8)) as int
}

/// What the fields of a whole record decode to. A record is sound only if its
/// fields end exactly where it ends: one whose inner lengths say otherwise is
/// corrupt, whatever stands behind it.
pub open spec fn decode_fields(record: Seq<u8>) -> Result<CommandView, KvsErrorView> {
    match (read_u64_at(record, 8), read_u8_at(record, 16)) {
        (Ok(ts), Ok(kind)) => if kind > 1 {
            Err(KvsErrorView::UnexpectedCommandType)
        } else {
            match read_u32_at(record, 17) {
                Err(_) => Err(KvsErrorView::Corruption),
                Ok(key_len) => match read_bytes_at(record, 21, key_len as int) {
                    Err(_) => Err(KvsErrorView::Corruption),
                    Ok(key) => if kind == 0 {
                        decode_value(record, ts, key)
                    } else if 21 + key_len == record.len() {
                        Ok(CommandView::Rm { ts, key })
                    } else {
                        Err(KvsErrorView::Corruption)
                    },
                },
            }
        },
        _ => Err(KvsErrorView::Corruption),
    }
}

/// What is left of a Put record behind its key.
pub open spec fn decode_value(record: Seq<u8>, ts: u64, key: Seq<u8>) -> Result<
    CommandView,
    KvsErrorView,
> {
    let at = 21 + key.len() as int;
    match read_u32_at(record, at) {
        Err(_) => Err(KvsErrorView::Corruption),
        Ok(value_len) => match read_bytes_at(record, at + 4, value_len as int) {
            Err(_) => Err(KvsErrorView::Corruption),
            Ok(value) => if at + 4 + value_len == record.len() {
                Ok(CommandView::Put { ts, key, value })
            } else {
                Err(KvsErrorView::Corruption)
            },
        },
    }
}

/// Where the record at the front of the buffer ends.
pub open spec fn record_end(buf: Seq<u8>) -> Result<int, KvsErrorView> {
    match (read_u32_at(buf, 0), read_u32_at(buf, 4)) {
        (Err(e), _) => Err(KvsErrorView::Io(e)),
        (_, Err(e)) => Err(KvsErrorView::Io(e)),
        (Ok(_), Ok(body_len)) => if buf.len() < 8 + body_len {
            Err(incomplete_command())
        } else {
            Ok(8 + body_len)
        },
    }
}

/// What the record at the front of the buffer decodes to, and its length,
/// given the checksum of the bytes that it covers.
pub open spec fn decode_checked(buf: Seq<u8>, actual_crc: u32) -> Result<
    (CommandView, int),
    KvsErrorView,
> {
    match record_end(buf) {
        Err(e) => Err(e),
        Ok(end) => if actual_crc != u32_of(buf.subrange(0, 4)) {
            Err(KvsErrorView::Corruption)
        } else {
            match decode_fields(buf.take(end)) {
                Err(e) => Err(e),
                Ok(command) => Ok((command, end)),
            }
        },
    }
}

/// What the record at the front of the buffer decodes to, and its length.
pub open spec fn decode(buf: Seq<u8>) -> Result<(CommandView, int), KvsErrorView> {
    decode_checked(buf, crc32(buf.subrange(4, 8 + stated_body_len(buf))))
}

impl<'a> View for Command<'a> {
    type V = CommandView;

    open spec fn view(&self) -> CommandView {
        match self {
            Command::Put { ts, key, value } => CommandView::Put {
                ts: *ts,
                key: key@,
                value: value@,
            },
            Command::Rm { ts, key } => CommandView::Rm { ts: *ts, key: key@ },
        }
    }
}

/// The kinds of record.
#[derive(Debug, Clone, Copy, PartialEq, Eq, Structural)]
pub enum CommandType {
    Put,
    Rm,
}

impl vstd::std_specs::convert::TryFromSpecImpl<u8> for CommandType {
    open spec fn obeys_try_from_spec() -> bool {
        true
    }

    open spec fn try_from_spec(value: u8) -> Result<Self, KvsError> {
        if value == 0 {
            Ok(CommandType::Put)
        } else if value == 1 {
            Ok(CommandType::Rm)
        } else {
            Err(KvsError::UnexpectedCommandType)
        }
    }
}

impl TryFrom<u8> for CommandType {
    type Error = KvsError;

    fn try_from(value: u8) -> (res: Result<Self, KvsError>) {
        match value {
            0 => Ok(CommandType::Put),
            1 => Ok(CommandType::Rm),
            _ => Err(KvsError::UnexpectedCommandType),
        }
    }
}

impl<'a> Command<'a> {
    /// The key that the command is about.
    pub fn get_key(&self) -> (key: &[u8])
        ensures
            key@ == self@.key(),
    {
        match self {
            Command::Put { key, .. } => key,
            Command::Rm { key, .. } => key,
        }
    }

    /// The value that the command gives the key.
    pub fn get_value(&self) -> (value: Option<&[u8]>)
        ensures
            match self@.value() {
                Some(v) => value is Some && value->0@ == v,
                None => value is None,
            },
    {
        match self {
            Command::Put { value, .. } => Some(value),
            Command::Rm { .. } => None,
        }
    }

    /// The time at which the command was given.
    pub fn get_timestamp(&self) -> (ts: u64)
        ensures
            ts == self@.ts(),
    {
        match self {
            Command::Put { ts, .. } => *ts,
            Command::Rm { ts, .. } => *ts,
        }
    }

    /// The kind of record that a type byte stands for.
    pub fn get_command_type(byte: u8) -> (res: Result<CommandType, KvsError>)
        ensures
            byte == 0 ==> res == Ok::<CommandType, KvsError>(CommandType::Put),
            byte == 1 ==> res == Ok::<CommandType, KvsError>(CommandType::Rm),
            byte > 1 ==> res is Err && res->Err_0@ == KvsErrorView::UnexpectedCommandType,
    {
        CommandType::try_from(byte)
    }

    /// The length of the body.
    pub fn encoded_body_len(&self) -> (len: usize)
        requires
            self@.body_len() <= usize::MAX,
        ensures
            len == self@.body_len(),
    {
        match self {
            // timestamp, type, key length, value length
            Command::Put { key, value, .. } => 8 + 1 + 4 + key.len() + 4 + value.len(),
            // timestamp, type, key length
            Command::Rm { key, .. } => 8 + 1 + 4 + key.len(),
        }
    }

    /// Appends the body.
    pub fn write_body(&self, buf: &mut Vec<u8>)
        ensures
            final(buf)@ == old(buf)@ + self@.body(),
    {
        match self {
            Command::Put { ts, key, value } => {
                push_u64(buf, *ts);
                buf.push(0);
                push_u32(buf, key.len() as u32);
                push_bytes(buf, key);
                push_u32(buf, value.len() as u32);
                push_bytes(buf, value);
            },
            Command::Rm { ts, key } => {
                push_u64(buf, *ts);
                buf.push(1);
                push_u32(buf, key.len() as u32);
                push_bytes(buf, key);
            },
        }
        assert(buf@ =~= old(buf)@ + self@.body());
    }

    /// The bytes that the crc covers.
    pub fn covered(&self) -> (buf: Vec<u8>)
        requires
            self@.body_len() <= usize::MAX,
        ensures
            buf@ == self@.covered(),
    {
        let mut buf: Vec<u8> = Vec::new();
        push_u32(&mut buf, self.encoded_body_len() as u32);
        self.write_body(&mut buf);
        assert(buf@ =~= self@.covered());
        buf
    }

    /// The record of the command.
    pub fn serialize(&self) -> (buf: Vec<u8>)
        requires
            self@.body_len() <= usize::MAX,
        ensures
            buf@ == self@.encode(),
    {
        let covered: Vec<u8> = self.covered();
        seal(crc32fast::hash(covered.as_slice()), covered.as_slice())
    }

    /// Decodes the record at the front of the buffer: the command, and the
    /// number of bytes that it takes.
    pub fn deserialize(buf: &'a [u8]) -> (res: Result<(Command<'a>, usize), KvsError>)
        ensures
            match decode(buf@) {
                Ok((command, used)) => {
                    &&& res is Ok
                    &&& res->Ok_0.0@ == command
                    &&& res->Ok_0.1 == used
                },
                Err(e) => res is Err && res->Err_0@ == e,
            },
    {
        match record_len(buf) {
            Err(e) => Err(e),
            Ok(end) => {
                let covered = vstd::slice::slice_subrange(buf, CRC_LEN, end);
                Command::deserialize_checked(buf, crc32fast::hash(covered))
            },
        }
    }

    /// Decodes the record at the front of the buffer, given the checksum of
    /// the bytes that it covers.
    pub fn deserialize_checked(buf: &'a [u8], actual_crc: u32) -> (res: Result<
        (Command<'a>, usize),
        KvsError,
    >)
        ensures
            match decode_checked(buf@, actual_crc) {
                Ok((command, used)) => {
                    &&& res is Ok
                    &&& res->Ok_0.0@ == command
                    &&& res->Ok_0.1 == used
                },
                Err(e) => res is Err && res->Err_0@ == e,
            },
    {
        let mut cursor: usize = 0;
        let stored_crc: u32 = match BytesUtil::read_u32(buf, &mut cursor) {
            Ok(crc) => crc,
            Err(e) => return Err(KvsError::Io(e)),
        };
        let command_end: usize = match record_len(buf) {
            Ok(end) => end,
            Err(e) => return Err(e),
        };
        if actual_crc != stored_crc {
            return Err(KvsError::Corruption);
        }
        let record = vstd::slice::slice_subrange(buf, 0, command_end);
        assert(record@ =~= buf@.take(command_end as int));
        match Command::read_fields(record) {
            Ok(command) => Ok((command, command_end)),
            Err(e) => Err(e),
        }
    }

    /// Decodes the fields of a whole record.
    fn read_fields(record: &'a [u8]) -> (res: Result<Command<'a>, KvsError>)
        ensures
            match decode_fields(record@) {
                Ok(command) => res is Ok && res->Ok_0@ == command,
                Err(e) => res is Err && res->Err_0@ == e,
            },
    {
        let mut cursor: usize = HEADER_LEN;
        let ts: u64 = match BytesUtil::read_u64(record, &mut cursor) {
            Ok(ts) => ts,
            Err(_) => return Err(KvsError::Corruption),
        };
        let type_byte: u8 = match BytesUtil::read_u8(record, &mut cursor) {
            Ok(byte) => byte,
            Err(_) => return Err(KvsError::Corruption),
        };
        let command_type = match Command::get_command_type(type_byte) {
            Ok(command_type) => command_type,
            Err(e) => return Err(e),
        };
        let key_len: usize = match BytesUtil::read_u32(record, &mut cursor) {
            Ok(len) => len as usize,
            Err(_) => return Err(KvsError::Corruption),
        };
        let key = match BytesUtil::read_bytes(record, &mut cursor, key_len) {
            Ok(key) => key,
            Err(_) => return Err(KvsError::Corruption),
        };
        let command = match command_type {
            CommandType::Put => {
                let value_len: usize = match BytesUtil::read_u32(record, &mut cursor) {
                    Ok(len) => len as usize,
                    Err(_) => return Err(KvsError::Corruption),
                };
                let value = match BytesUtil::read_bytes(record, &mut cursor, value_len) {
                    Ok(value) => value,
                    Err(_) => return Err(KvsError::Corruption),
                };
                Command::Put { ts, key, value }
            },
            CommandType::Rm => Command::Rm { ts, key },
        };
        if cursor != record.len() {
            return Err(KvsError::Corruption);
        }
        Ok(command)
    }

    /// The body length that a record header states.
    pub fn body_len(header: &[u8]) -> (len: usize)
        requires
            header@.len() >= HEADER_LEN,
        ensures
            len == stated_body_len(header@),
    {
        let mut cursor: usize = CRC_LEN;
        match BytesUtil::read_u32(header, &mut cursor) {
            Ok(len) => len as usize,
            Err(_) => 0,
        }
    }
}

/// Puts a checksum in front of the bytes that it covers.
pub fn seal(crc: u32, covered: &[u8]) -> (buf: Vec<u8>)
    ensures
        buf@ == le32(crc) + covered@,
{
    let mut buf: Vec<u8> = Vec::new();
    push_u32(&mut buf, crc);
    push_bytes(&mut buf, covered);
    assert(buf@ =~= le32(crc) + covered@);
    buf
}

/// Where the record at the front of the buffer ends.
fn record_len(buf: &[u8]) -> (res: Result<usize, KvsError>)
    ensures
        match record_end(buf@) {
            Ok(end) => res is Ok && res->Ok_0 == end && HEADER_LEN <= end <= buf@.len(),
            Err(e) => res is Err && res->Err_0@ == e,
        },
{
    let size: usize = buf.len();
    let mut cursor: usize = 0;
    match BytesUtil::read_u32(buf, &mut cursor) {
        Ok(_) => {},
        Err(e) => return Err(KvsError::Io(e)),
    }
    let body_len: usize = match BytesUtil::read_u32(buf, &mut cursor) {
        Ok(len) => len as usize,
        Err(e) => return Err(KvsError::Io(e)),
    };
    if size - HEADER_LEN < body_len {
        return Err(KvsError::io(ErrorKind::UnexpectedEof, "incomplete command"));
    }
    Ok(HEADER_LEN + body_len)
}

/// The record of a command is as long as its header and its body.
pub proof fn law_encode_len(c: CommandView)
    ensures
        c.body().len() == c.body_len(),
        c.encode().len() == HEADER_LEN + c.body_len(),
{
    law_u32_round_trip(crc32(c.covered()));
    law_u32_round_trip(c.body_len() as u32);
    law_u32_round_trip(c.key().len() as u32);
    law_u64_round_trip(c.ts());
    if let CommandView::Put { value, .. } = c {
        law_u32_round_trip(value.len() as u32);
    }
}

/// Reading a record back gives the command that was written, and takes
/// exactly the bytes of that record, whatever stands behind it.
pub proof fn law_decode_encode(c: CommandView, rest: Seq<u8>)
    requires
        c.storable(),
        c.encode().len() + rest.len() <= usize::MAX,
    ensures
        decode(c.encode() + rest) == Ok::<(CommandView, int), KvsErrorView>(
            (c, c.encode().len() as int),
        ),
{
    let buf = c.encode() + rest;
    let end = 8 + c.body_len();
    let record = c.encode();
    law_encode_len(c);
    law_u32_round_trip(crc32(c.covered()));
    law_u32_round_trip(c.body_len() as u32);
    assert(buf.subrange(0, 4) =~= le32(crc32(c.covered())));
    assert(buf.subrange(4, 8) =~= le32(c.body_len() as u32));
    assert(buf.subrange(4, end as int) =~= c.covered());
    assert(buf.take(end as int) =~= record);
    lemma_fields(c);
}

/// The fields of a record are those of its command.
proof fn lemma_fields(c: CommandView)
    requires
        c.storable(),
        c.encode().len() <= usize::MAX,
    ensures
        decode_fields(c.encode()) == Ok::<CommandView, KvsErrorView>(c),
{
    let record = c.encode();
    let key_len = c.key().len() as int;
    law_encode_len(c);
    law_u32_round_trip(crc32(c.covered()));
    law_u32_round_trip(c.body_len() as u32);
    law_u32_round_trip(c.key().len() as u32);
    law_u64_round_trip(c.ts());
    assert(record.subrange(8, 16) =~= le64(c.ts()));
    assert(record.subrange(17, 21) =~= le32(c.key().len() as u32));
    assert(record.subrange(21, 21 + key_len) =~= c.key());
    match c {
        CommandView::Put { value, .. } => {
            let value_len = value.len() as int;
            law_u32_round_trip(value.len() as u32);
            assert(record[16] == 0);
            assert(record.subrange(21 + key_len, 25 + key_len) =~= le32(value.len() as u32));
            assert(record.subrange(25 + key_len, 25 + key_len + value_len) =~= value);
        },
        CommandView::Rm { .. } => {
            assert(record[16] == 1);
        },
    }
}

/// What decodes was written by an encode: no other bytes are taken for a
/// record.
pub proof fn law_encode_decode(buf: Seq<u8>)
    requires
        decode(buf) is Ok,
    ensures
        ({
            let (c, used) = decode(buf)->Ok_0;
            c.storable() && used <= buf.len() && buf.take(used) == c.encode()
        }),
{
    let (c, used) = decode(buf)->Ok_0;
    let record = buf.take(used);
    let key_len = c.key().len() as int;
    law_encode_len(c);
    law_u32_bytes(record.subrange(0, 4));
    law_u32_bytes(record.subrange(4, 8));
    law_u64_bytes(record.subrange(8, 16));
    law_u32_bytes(record.subrange(17, 21));
    assert(record.subrange(0, 4) =~= buf.subrange(0, 4));
    assert(record.subrange(4, 8) =~= buf.subrange(4, 8));
    let body = record.subrange(8, used);
    match c {
        CommandView::Put { value, .. } => {
            law_u32_bytes(record.subrange(21 + key_len, 25 + key_len));
            assert(body =~= c.body());
        },
        CommandView::Rm { .. } => {
            assert(body =~= c.body());
        },
    }
    assert(buf.subrange(4, used) =~= c.covered());
    assert(record =~= c.encode());
}

/// A record of which the tail is missing is reported as incomplete, never as
/// corrupt.
pub proof fn law_truncated_record(c: CommandView, n: int)
    requires
        c.storable(),
        c.encode().len() <= usize::MAX,
        0 <= n < c.encode().len(),
    ensures
        decode(c.encode().take(n)) is Err,
        decode(c.encode().take(n))->Err_0 is Io,
        decode(c.encode().take(n))->Err_0->Io_0.kind == ErrorKind::UnexpectedEof,
{
    let buf = c.encode().take(n);
    law_encode_len(c);
    law_u32_round_trip(crc32(c.covered()));
    law_u32_round_trip(c.body_len() as u32);
    if n >= 8 {
        assert(buf.subrange(4, 8) =~= le32(c.body_len() as u32));
    }
}

/// A whole record whose bytes do not match its checksum is reported as corrupt,
/// whatever its fields hold.
pub proof fn law_checksum_mismatch(buf: Seq<u8>)
    requires
        8 <= buf.len() <= usize::MAX,
        8 + stated_body_len(buf) <= buf.len(),
        crc32(buf.subrange(4, 8 + stated_body_len(buf))) != u32_of(buf.subrange(0, 4)),
    ensures
        decode(buf) == Err::<(CommandView, int), KvsErrorView>(KvsErrorView::Corruption),
{
}

/// Only an incomplete record is reported as one: where the end of the input is
/// met, either the header or the body that it states is not all there.
pub proof fn law_eof_means_incomplete(buf: Seq<u8>)
    requires
        buf.len() <= usize::MAX,
        decode(buf) is Err,
        decode(buf)->Err_0 is Io,
    ensures
        buf.len() < 8 || buf.len() < 8 + stated_body_len(buf),
{
}

/// What stands behind a record has no bearing on it.
pub proof fn law_record_stands_alone(record: Seq<u8>, rest: Seq<u8>)
    requires
        8 <= record.len(),
        record.len() == 8 + stated_body_len(record),
        record.len() + rest.len() <= usize::MAX,
    ensures
        decode(record + rest) == decode(record),
{
    let buf = record + rest;
    let end = record.len() as int;
    assert(buf.subrange(0, 4) =~= record.subrange(0, 4));
    assert(buf.subrange(4, 8) =~= record.subrange(4, 8));
    assert(buf.subrange(4, end) =~= record.subrange(4, end));
    assert(buf.take(end) =~= record);
    assert(record.take(end) =~= record);
}

/// Four bytes of which one is changed stand for another number.
pub(crate) proof fn lemma_changed_number(a: Seq<u8>, b: Seq<u8>)
    requires
        a.len() == 4,
        b.len() == 4,
        a != b,
    ensures
        u32_of(a) != u32_of(b),
{
    law_u32_bytes(a);
    law_u32_bytes(b);
}

/// A record of which one byte is changed, whichever it is, is refused, and so
/// is one of which one bit is flipped. It is reported as corrupt unless it is
/// the length field that was changed.
pub proof fn law_changed_record(c: CommandView, rest: Seq<u8>, i: int, b: u8)
    requires
        c.storable(),
        c.encode().len() + rest.len() <= usize::MAX,
        0 <= i < c.encode().len(),
        c.encode()[i] != b,
    ensures
        decode((c.encode() + rest).update(i, b)) is Err,
        (i < 4 || i >= 8) ==> decode((c.encode() + rest).update(i, b)) == Err::<
            (CommandView, int),
            KvsErrorView,
        >(KvsErrorView::Corruption),
{
    let record = c.encode();
    let whole = record + rest;
    let buf = whole.update(i, b);
    let end = record.len() as int;
    law_encode_len(c);
    law_u32_round_trip(crc32(c.covered()));
    law_u32_round_trip(c.body_len() as u32);
    assert(whole.subrange(0, 4) =~= le32(crc32(c.covered())));
    assert(whole.subrange(4, 8) =~= le32(c.body_len() as u32));
    assert(whole.subrange(4, end) =~= c.covered());
    assert(buf[i] == b && whole[i] == record[i]);
    if i < 4 {
        assert(buf.subrange(4, 8) =~= whole.subrange(4, 8));
        assert(buf.subrange(4, end) =~= whole.subrange(4, end));
        assert(buf.subrange(0, 4)[i] != whole.subrange(0, 4)[i]);
        lemma_changed_number(buf.subrange(0, 4), whole.subrange(0, 4));
    } else if i >= 8 {
        assert(buf.subrange(4, 8) =~= whole.subrange(4, 8));
        assert(buf.subrange(0, 4) =~= whole.subrange(0, 4));
        assert(buf.subrange(4, end) =~= c.covered().update(i - 4, b));
        assert(c.covered()[i - 4] == record[i]);
        law_changed_byte(c.covered(), i - 4, b);
    } else {
        assert(buf.subrange(4, 8)[i - 4] != whole.subrange(4, 8)[i - 4]);
        lemma_changed_number(buf.subrange(4, 8), whole.subrange(4, 8));
        lemma_fields(c);
        if decode(buf) is Ok {
            let used = decode(buf)->Ok_0.1;
            let other = buf.take(used);
            let key_len = c.key().len() as int;
            assert(other[16] == record[16]);
            assert(other.subrange(17, 21) =~= record.subrange(17, 21));
            if c is Put {
                assert(other.subrange(21 + key_len, 25 + key_len) =~= record.subrange(
                    21 + key_len,
                    25 + key_len,
                ));
            }
        }
    }
}

/// The layout of a record: checksum of all that follows, length of the body,
/// timestamp, type, and each byte run behind its length.
pub proof fn law_record_layout(c: CommandView)
    requires
        c.storable(),
    ensures
        ({
            let r = c.encode();
            let k = c.key().len() as int;
            &&& u32_of(r.subrange(0, 4)) == crc32(r.skip(4))
            &&& u32_of(r.subrange(4, 8)) == r.len() - 8
            &&& u64_of(r.subrange(8, 16)) == c.ts()
            &&& u32_of(r.subrange(17, 21)) == k
            &&& r.subrange(21, 21 + k) == c.key()
            &&& match c.value() {
                Some(v) => {
                    &&& r[16] == 0
                    &&& r.len() == 25 + k + v.len()
                    &&& u32_of(r.subrange(21 + k, 25 + k)) == v.len()
                    &&& r.skip(25 + k) == v
                },
                None => r[16] == 1 && r.len() == 21 + k,
            }
        }),
{
    let r = c.encode();
    let k = c.key().len() as int;
    law_encode_len(c);
    law_u32_round_trip(crc32(c.covered()));
    law_u32_round_trip(c.body_len() as u32);
    law_u32_round_trip(c.key().len() as u32);
    law_u64_round_trip(c.ts());
    assert(r.subrange(0, 4) =~= le32(crc32(c.covered())));
    assert(r.skip(4) =~= c.covered());
    assert(r.subrange(4, 8) =~= le32(c.body_len() as u32));
    assert(r.subrange(8, 16) =~= le64(c.ts()));
    assert(r.subrange(17, 21) =~= le32(c.key().len() as u32));
    assert(r.subrange(21, 21 + k) =~= c.key());
    if let CommandView::Put { value, .. } = c {
        law_u32_round_trip(value.len() as u32);
        assert(r.subrange(21 + k, 25 + k) =~= le32(value.len() as u32));
        assert(r.skip(25 + k) =~= value);
    }
}

/// What a command is about can be asked of it: its key, its value where it has
/// one, and its time.
pub proof fn law_parts(ts: u64, key: Seq<u8>, value: Seq<u8>)
    ensures
        ({
            let (put, rm) = (CommandView::Put { ts, key, value }, CommandView::Rm { ts, key });
            &&& put.key() == key && rm.key() == key
            &&& put.ts() == ts && rm.ts() == ts
            &&& put.value() == Some(value) && rm.value() is None
        }),
{
}

/// The body length that a header states is that of four bytes behind the
/// checksum, least significant first.
pub proof fn law_stated_len(buf: Seq<u8>)
    requires
        8 <= buf.len() <= usize::MAX,
    ensures
        stated_body_len(buf) == buf[4] + 0x100 * buf[5] + 0x1_0000 * buf[6] + 0x100_0000 * buf[7],
{
    law_read_number(buf, 4);
}

/// How a record fails: an incomplete one with the end of the input, any other
/// as corrupt, but for one that is whole, matches its checksum and has a type
/// that is not known.
pub proof fn law_decode_errors(buf: Seq<u8>)
    requires
        buf.len() <= usize::MAX,
        decode(buf) is Err,
    ensures
        ({
            let size = 8 + buf[4] + 0x100 * buf[5] + 0x1_0000 * buf[6] + 0x100_0000 * buf[7];
            let e = decode(buf)->Err_0;
            if buf.len() < 8 || buf.len() < size {
                e is Io && e->Io_0.kind == ErrorKind::UnexpectedEof
            } else if crc32(buf.subrange(4, size)) != u32_of(buf.subrange(0, 4)) {
                e == KvsErrorView::Corruption
            } else if size >= 17 && buf[16] > 1 {
                e == KvsErrorView::UnexpectedCommandType
            } else {
                e == KvsErrorView::Corruption
            }
        }),
{
    if buf.len() >= 8 {
        law_stated_len(buf);
        let size = 8 + stated_body_len(buf);
        if size >= 17 && size <= buf.len() {
            assert(buf.take(size)[16] == buf[16]);
        }
    }
}

} // verus!
