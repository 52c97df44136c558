//! Splits a log or hint file into records.
use vstd::prelude::*;

use crate::byte_reader::read_exact;
use crate::bytes_util::push_bytes;
use crate::command::{stated_body_len, Command, HEADER_LEN};
use crate::error::KvsError;

verus! {

/// What the next record of a file is.
#[derive(Debug)]
pub enum RecordRead {
    /// A whole record, and where it starts.
    Record { position: u64, bytes: Vec<u8> },
    /// The file ends where a record ends.
    CleanEof,
    /// The record runs past the end of the file.
    TornTail { position: u64 },
}

/// The view of a [`RecordRead`].
pub enum RecordReadView {
    Record { position: u64, bytes: Seq<u8> },
    CleanEof,
    TornTail { position: u64 },
}

impl View for RecordRead {
    type V = RecordReadView;

    open spec fn view(&self) -> RecordReadView {
        match self {
            RecordRead::Record { position, bytes } => RecordReadView::Record {
                position: *position,
                bytes: bytes@,
            },
            RecordRead::CleanEof => RecordReadView::CleanEof,
            RecordRead::TornTail { position } => RecordReadView::TornTail { position: *position },
        }
    }
}

/// Walks the records of a file from its start.
pub struct RecordReader<'a> {
    reader: &'a [u8],
    position: u64,
    file_len: u64,
}

/// The view of a [`RecordReader`]: the bytes that are still to be read, how
/// far it has come, and how long the file is said to be.
pub struct RecordReaderView {
    pub rest: Seq<u8>,
    pub position: u64,
    pub file_len: u64,
}

impl<'a> View for RecordReader<'a> {
    type V = RecordReaderView;

    closed spec fn view(&self) -> RecordReaderView {
        RecordReaderView {
            rest: self.reader@,
            position: self.position,
            file_len: self.file_len,
        }
    }
}

impl RecordReaderView {
    /// A header that can be read lies within the length of the file.
    pub open spec fn header_in_file(self) -> bool {
        self.rest.len() >= HEADER_LEN ==> self.position + HEADER_LEN <= self.file_len
    }

    /// The bytes to be read are those from the position to the end of the file.
    pub open spec fn in_step(self) -> bool {
        self.position + self.rest.len() == self.file_len
    }

    /// What the next read gives, and the reader behind it. A record whose
    /// length field points past the end of the file is torn: its header is
    /// consumed and the position stays.
    pub open spec fn next(self) -> (RecordReadView, RecordReaderView) {
        let torn = RecordReadView::TornTail { position: self.position };
        let size = HEADER_LEN + stated_body_len(self.rest);
        if self.rest.len() < HEADER_LEN {
            (
                if self.position == self.file_len {
                    RecordReadView::CleanEof
                } else {
                    torn
                },
                RecordReaderView { rest: Seq::empty(), ..self },
            )
        } else if self.position + size > self.file_len {
            (torn, RecordReaderView { rest: self.rest.skip(HEADER_LEN as int), ..self })
        } else {
            let position = (self.position + size) as u64;
            if self.rest.len() < size {
                (torn, RecordReaderView { rest: Seq::empty(), position, ..self })
            } else {
                (
                    RecordReadView::Record {
                        position: self.position,
                        bytes: self.rest.take(size),
                    },
                    RecordReaderView { rest: self.rest.skip(size), position, ..self },
                )
            }
        }
    }
}

impl<'a> RecordReader<'a> {
    /// A reader at the start of a file of `file_len` bytes.
    pub fn new(reader: &'a [u8], file_len: u64) -> (res: Self)
        ensures
            res@ == (RecordReaderView { rest: reader@, position: 0, file_len }),
    {
        RecordReader { reader, position: 0, file_len }
    }

    /// Reads the next record.
    pub fn next_record(&mut self) -> (res: Result<RecordRead, KvsError>)
        requires
            old(self)@.header_in_file(),
        ensures
            res is Ok,
            res->Ok_0@ == old(self)@.next().0,
            final(self)@ == old(self)@.next().1,
    {
        let start: u64 = self.position;
        let header = match read_exact(&mut self.reader, HEADER_LEN) {
            Ok(header) => header,
            Err(_) => {
                return if start == self.file_len {
                    Ok(RecordRead::CleanEof)
                } else {
                    Ok(RecordRead::TornTail { position: start })
                };
            },
        };
        let body_len: usize = Command::body_len(header);
        assert(header@.subrange(4, 8) =~= old(self)@.rest.subrange(4, 8));
        let remaining: u64 = self.file_len - start - HEADER_LEN as u64;
        if body_len as u64 > remaining {
            return Ok(RecordRead::TornTail { position: start });
        }
        self.position = start + HEADER_LEN as u64 + body_len as u64;
        match read_exact(&mut self.reader, body_len) {
            Ok(body) => {
                let mut bytes: Vec<u8> = Vec::new();
                push_bytes(&mut bytes, header);
                push_bytes(&mut bytes, body);
                assert(bytes@ =~= old(self)@.rest.take(HEADER_LEN + body_len));
                assert(self@.rest =~= old(self)@.rest.skip(HEADER_LEN + body_len));
                Ok(RecordRead::Record { position: start, bytes })
            },
            Err(_) => Ok(RecordRead::TornTail { position: start }),
        }
    }
}

/// A reader whose bytes match the length of its file stays so over every whole
/// record, never meets a header past the end, and ends cleanly exactly where
/// the bytes end; asked again there, it says so again.
pub proof fn law_reader_stays_in_step(reader: RecordReaderView)
    requires
        reader.in_step(),
    ensures
        reader.header_in_file(),
        reader.next().0 is Record ==> reader.next().1.in_step(),
        reader.next().0 is CleanEof <==> reader.rest.len() == 0,
        reader.next().0 is CleanEof ==> reader.next().1.next().0 is CleanEof,
{
}

} // verus!
