//! Little-endian integers and byte runs, read and written at a cursor.
use vstd::prelude::*;

use crate::error::{ErrorKind, IoError, IoErrorView};

verus! {

/// The number that four bytes stand for, least significant byte first.
#[verifier::opaque]
pub open spec fn u32_of(b: Seq<u8>) -> u32
    recommends
        b.len() == 4,
{
    (b[0] + 0x100 * b[1] + 0x1_0000 * b[2] + 0x100_0000 * b[3]) as u32
}

/// The number that eight bytes stand for, least significant byte first.
#[verifier::opaque]
pub open spec fn u64_of(b: Seq<u8>) -> u64
    recommends
        b.len() == 8,
{
    (u32_of(b.subrange(0, 4)) + 0x1_0000_0000 * u32_of(b.subrange(4, 8))) as u64
}

/// The four bytes of a number, least significant byte first.
#[verifier::opaque]
pub open spec fn le32(x: u32) -> Seq<u8> {
    seq![
        (x % 0x100) as u8,
        (x / 0x100 % 0x100) as u8,
        (x / 0x1_0000 % 0x100) as u8,
        (x / 0x100_0000) as u8,
    ]
}

/// The eight bytes of a number, least significant byte first.
#[verifier::opaque]
pub open spec fn le64(x: u64) -> Seq<u8> {
    le32((x % 0x1_0000_0000) as u32) + le32((x / 0x1_0000_0000) as u32)
}

/// Reading back the four bytes of a number gives the number.
pub proof fn law_u32_round_trip(x: u32)
    ensures
        u32_of(le32(x)) == x,
        le32(x).len() == 4,
{
    reveal(u32_of);
    reveal(le32);
}

/// Reading back the eight bytes of a number gives the number.
pub proof fn law_u64_round_trip(x: u64)
    ensures
        u64_of(le64(x)) == x,
        le64(x).len() == 8,
{
    reveal(u64_of);
    reveal(le64);
    let low = (x % 0x1_0000_0000) as u32;
    let high = (x / 0x1_0000_0000) as u32;
    law_u32_round_trip(low);
    law_u32_round_trip(high);
    assert(le64(x).subrange(0, 4) =~= le32(low));
    assert(le64(x).subrange(4, 8) =~= le32(high));
}

/// The bytes of a number are its digits to the base 256, least significant
/// first.
pub proof fn law_u32_digits(x: u32)
    ensures
        le32(x).len() == 4,
        le32(x)[0] + 0x100 * le32(x)[1] + 0x1_0000 * le32(x)[2] + 0x100_0000 * le32(x)[3] == x,
{
    reveal(le32);
}

/// The same of a number of eight bytes.
pub proof fn law_u64_digits(x: u64)
    ensures
        le64(x).len() == 8,
        le64(x)[0] + 0x100 * le64(x)[1] + 0x1_0000 * le64(x)[2] + 0x100_0000 * le64(x)[3]
            + 0x1_0000_0000 * (le64(x)[4] + 0x100 * le64(x)[5] + 0x1_0000 * le64(x)[6]
            + 0x100_0000 * le64(x)[7]) == x,
{
    reveal(le64);
    law_u32_digits((x % 0x1_0000_0000) as u32);
    law_u32_digits((x / 0x1_0000_0000) as u32);
}

/// Four bytes are the bytes of the number that they stand for.
pub proof fn law_u32_bytes(b: Seq<u8>)
    requires
        b.len() == 4,
    ensures
        le32(u32_of(b)) == b,
{
    reveal(u32_of);
    reveal(le32);
    let x = u32_of(b);
    let (b0, b1, b2, b3) = (b[0] as int, b[1] as int, b[2] as int, b[3] as int);
    assert(x == b0 + 0x100 * (b1 + 0x100 * (b2 + 0x100 * b3)));
    assert(x % 0x100 == b0);
    assert(x / 0x100 == b1 + 0x100 * (b2 + 0x100 * b3));
    assert(x / 0x1_0000 == b2 + 0x100 * b3);
    assert(x / 0x100_0000 == b3);
    assert(le32(x) =~= b);
}

/// Eight bytes are the bytes of the number that they stand for.
pub proof fn law_u64_bytes(b: Seq<u8>)
    requires
        b.len() == 8,
    ensures
        le64(u64_of(b)) == b,
{
    reveal(u64_of);
    reveal(le64);
    law_u32_bytes(b.subrange(0, 4));
    law_u32_bytes(b.subrange(4, 8));
    let x = u64_of(b);
    assert(x % 0x1_0000_0000 == u32_of(b.subrange(0, 4)));
    assert(x / 0x1_0000_0000 == u32_of(b.subrange(4, 8)));
    assert(le64(x) == b.subrange(0, 4) + b.subrange(4, 8));
    assert(le64(x) =~= b);
}

/// The error of a read that the buffer is too short for.
pub open spec fn end_of_buffer() -> IoErrorView {
    IoErrorView { kind: ErrorKind::UnexpectedEof, message: "unexpected end of buffer"@ }
}

/// The error of a fixed-size read whose end no cursor can reach.
pub open spec fn cursor_overflow() -> IoErrorView {
    IoErrorView { kind: ErrorKind::InvalidData, message: "cursor overflow"@ }
}

/// The error of a byte run whose end no cursor can reach.
pub open spec fn length_overflow() -> IoErrorView {
    IoErrorView { kind: ErrorKind::InvalidData, message: "length overflow"@ }
}

/// What reading one byte at `at` gives.
pub open spec fn read_u8_at(buf: Seq<u8>, at: int) -> Result<u8, IoErrorView> {
    if at >= buf.len() {
        Err(end_of_buffer())
    } else {
        Ok(buf[at])
    }
}

/// What reading four bytes at `at` gives.
pub open spec fn read_u32_at(buf: Seq<u8>, at: int) -> Result<u32, IoErrorView> {
    if at + 4 > usize::MAX {
        Err(cursor_overflow())
    } else if at + 4 > buf.len() {
        Err(end_of_buffer())
    } else {
        Ok(u32_of(buf.subrange(at, at + 4)))
    }
}

/// What reading eight bytes at `at` gives.
pub open spec fn read_u64_at(buf: Seq<u8>, at: int) -> Result<u64, IoErrorView> {
    if at + 8 > usize::MAX {
        Err(cursor_overflow())
    } else if at + 8 > buf.len() {
        Err(end_of_buffer())
    } else {
        Ok(u64_of(buf.subrange(at, at + 8)))
    }
}

/// What reading a run of `len` bytes at `at` gives.
pub open spec fn read_bytes_at(buf: Seq<u8>, at: int, len: int) -> Result<Seq<u8>, IoErrorView> {
    if at + len > usize::MAX {
        Err(length_overflow())
    } else if at + len > buf.len() {
        Err(end_of_buffer())
    } else {
        Ok(buf.subrange(at, at + len))
    }
}

/// Appends the four bytes of a number.
pub fn push_u32(buf: &mut Vec<u8>, x: u32)
    ensures
        final(buf)@ == old(buf)@ + le32(x),
{
    buf.push((x % 0x100) as u8);
    buf.push((x / 0x100 % 0x100) as u8);
    buf.push((x / 0x1_0000 % 0x100) as u8);
    buf.push((x / 0x100_0000) as u8);
    proof {
        reveal(le32);
    }
    assert(buf@ =~= old(buf)@ + le32(x));
}

/// Appends the eight bytes of a number.
pub fn push_u64(buf: &mut Vec<u8>, x: u64)
    ensures
        final(buf)@ == old(buf)@ + le64(x),
{
    push_u32(buf, (x % 0x1_0000_0000) as u32);
    push_u32(buf, (x / 0x1_0000_0000) as u32);
    proof {
        reveal(le64);
    }
    assert(buf@ =~= old(buf)@ + le64(x));
}

/// Appends a run of bytes.
pub fn push_bytes(buf: &mut Vec<u8>, bytes: &[u8])
    ensures
        final(buf)@ == old(buf)@ + bytes@,
{
    buf.extend_from_slice(bytes);
    assert(buf@ =~= old(buf)@ + bytes@);
}

/// Whether two runs of bytes are the same.
pub fn same_bytes(a: &[u8], b: &[u8]) -> (same: bool)
    ensures
        same == (a@ == b@),
{
    if a.len() != b.len() {
        return false;
    }
    let mut i: usize = 0;
    while i < a.len()
        invariant
            a@.len() == b@.len(),
            i <= a@.len(),
            forall|j: int| 0 <= j < i ==> a@[j] == b@[j],
        decreases a@.len() - i,
    {
        if a[i] != b[i] {
            return false;
        }
        i += 1;
    }
    assert(a@ =~= b@);
    true
}

/// Reads from a buffer at a cursor. A read that fails leaves the cursor where
/// it was.
pub struct BytesUtil;

impl BytesUtil {
    /// Reads one byte.
    pub fn read_u8(buf: &[u8], cursor: &mut usize) -> (res: Result<u8, IoError>)
        ensures
            match read_u8_at(buf@, *old(cursor) as int) {
                Ok(value) => res == Ok::<u8, IoError>(value) && *final(cursor) == *old(cursor) + 1,
                Err(e) => res is Err && res->Err_0@ == e && *final(cursor) == *old(cursor),
            },
    {
        if *cursor >= buf.len() {
            return Err(IoError::new(ErrorKind::UnexpectedEof, "unexpected end of buffer"));
        }
        let value: u8 = buf[*cursor];
        *cursor += 1;
        Ok(value)
    }

    /// Reads four bytes as a little-endian number.
    pub fn read_u32(buf: &[u8], cursor: &mut usize) -> (res: Result<u32, IoError>)
        ensures
            match read_u32_at(buf@, *old(cursor) as int) {
                Ok(value) => res == Ok::<u32, IoError>(value) && *final(cursor) == *old(cursor) + 4,
                Err(e) => res is Err && res->Err_0@ == e && *final(cursor) == *old(cursor),
            },
    {
        let size: usize = buf.len();
        let start: usize = *cursor;
        let end: usize = match start.checked_add(4) {
            Some(end) => end,
            None => return Err(IoError::new(ErrorKind::InvalidData, "cursor overflow")),
        };
        if end > size {
            return Err(IoError::new(ErrorKind::UnexpectedEof, "unexpected end of buffer"));
        }
        let value: u32 = buf[start] as u32 + 0x100 * buf[start + 1] as u32 + 0x1_0000
            * buf[start + 2] as u32 + 0x100_0000 * buf[start + 3] as u32;
        proof {
            reveal(u32_of);
        }
        *cursor = end;
        Ok(value)
    }

    /// Reads eight bytes as a little-endian number.
    pub fn read_u64(buf: &[u8], cursor: &mut usize) -> (res: Result<u64, IoError>)
        ensures
            match read_u64_at(buf@, *old(cursor) as int) {
                Ok(value) => res == Ok::<u64, IoError>(value) && *final(cursor) == *old(cursor) + 8,
                Err(e) => res is Err && res->Err_0@ == e && *final(cursor) == *old(cursor),
            },
    {
        let size: usize = buf.len();
        let start: usize = *cursor;
        let end: usize = match start.checked_add(8) {
            Some(end) => end,
            None => return Err(IoError::new(ErrorKind::InvalidData, "cursor overflow")),
        };
        if end > size {
            return Err(IoError::new(ErrorKind::UnexpectedEof, "unexpected end of buffer"));
        }
        let low: u32 = buf[start] as u32 + 0x100 * buf[start + 1] as u32 + 0x1_0000
            * buf[start + 2] as u32 + 0x100_0000 * buf[start + 3] as u32;
        let high: u32 = buf[start + 4] as u32 + 0x100 * buf[start + 5] as u32 + 0x1_0000
            * buf[start + 6] as u32 + 0x100_0000 * buf[start + 7] as u32;
        let value: u64 = low as u64 + 0x1_0000_0000 * high as u64;
        proof {
            reveal(u32_of);
            reveal(u64_of);
            let bytes = buf@.subrange(start as int, end as int);
            assert(u32_of(bytes.subrange(0, 4)) == low);
            assert(u32_of(bytes.subrange(4, 8)) == high);
        }
        *cursor = end;
        Ok(value)
    }

    /// Reads a run of `len` bytes.
    pub fn read_bytes<'a>(buf: &'a [u8], cursor: &mut usize, len: usize) -> (res: Result<
        &'a [u8],
        IoError,
    >)
        ensures
            match read_bytes_at(buf@, *old(cursor) as int, len as int) {
                Ok(value) => {
                    &&& res is Ok
                    &&& res->Ok_0@ == value
                    &&& *final(cursor) == *old(cursor) + len
                },
                Err(e) => res is Err && res->Err_0@ == e && *final(cursor) == *old(cursor),
            },
    {
        let size: usize = buf.len();
        let start: usize = *cursor;
        let end: usize = match start.checked_add(len) {
            Some(end) => end,
            None => return Err(IoError::new(ErrorKind::InvalidData, "length overflow")),
        };
        if end > size {
            return Err(IoError::new(ErrorKind::UnexpectedEof, "unexpected end of buffer"));
        }
        let value = vstd::slice::slice_subrange(buf, start, end);
        *cursor = end;
        Ok(value)
    }
}

/// A read of a number gives what its bytes say, least significant first, and
/// moves the cursor behind them.
pub proof fn law_read_number(buf: Seq<u8>, at: int)
    requires
        0 <= at,
        at + 4 <= buf.len() <= usize::MAX,
    ensures
        read_u32_at(buf, at) is Ok,
        read_u32_at(buf, at)->Ok_0 == buf[at] + 0x100 * buf[at + 1] + 0x1_0000 * buf[at + 2]
            + 0x100_0000 * buf[at + 3],
        at + 8 <= buf.len() ==> read_u64_at(buf, at) is Ok && read_u64_at(buf, at)->Ok_0
            == read_u32_at(buf, at)->Ok_0 + 0x1_0000_0000 * read_u32_at(buf, at + 4)->Ok_0,
{
    reveal(u32_of);
    reveal(u64_of);
    if at + 8 <= buf.len() {
        let bytes = buf.subrange(at, at + 8);
        assert(bytes.subrange(0, 4) =~= buf.subrange(at, at + 4));
        assert(bytes.subrange(4, 8) =~= buf.subrange(at + 4, at + 8));
    }
}

} // verus!
