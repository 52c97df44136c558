//! The error type of the store.
//!
//! Errors are plain values. A contract speaks of an error through its view,
//! in which every text is the sequence of its characters.
use vstd::prelude::*;

verus! {

/// The kinds of input/output failure that the store tells apart.
#[derive(Debug, Clone, Copy, PartialEq, Eq, Structural)]
pub enum ErrorKind {
    /// The bytes ended before the value that was asked for.
    UnexpectedEof,
    /// The bytes cannot describe a value.
    InvalidData,
    /// Any other failure of the operating system.
    Other,
}

/// An input/output failure: its kind, and a text for the reader of a log.
#[derive(Debug, Clone, PartialEq, Eq)]
pub struct IoError {
    pub kind: ErrorKind,
    pub message: String,
}

/// The view of an [`IoError`].
pub struct IoErrorView {
    pub kind: ErrorKind,
    pub message: Seq<char>,
}

impl View for IoError {
    type V = IoErrorView;

    open spec fn view(&self) -> IoErrorView {
        IoErrorView { kind: self.kind, message: self.message@ }
    }
}

impl IoError {
    /// An error of the given kind and text.
    pub fn new(kind: ErrorKind, message: &str) -> (e: IoError)
        ensures
            e@ == (IoErrorView { kind, message: message@ }),
    {
        IoError { kind, message: message.to_owned() }
    }

    /// The kind of the error.
    pub fn kind(&self) -> (kind: ErrorKind)
        ensures
            kind == self@.kind,
    {
        self.kind
    }
}

/// Error type of the store.
#[derive(Debug, Clone, PartialEq, Eq)]
pub enum KvsError {
    /// Input/output failure.
    Io(IoError),
    /// Serialization or deserialization failure.
    Serde(String),
    /// Removing a key that is not there.
    KeyNotFound,
    /// An unknown command type: a corrupted log, or a program bug.
    UnexpectedCommandType,
    /// The bytes of a record do not match its stored checksum.
    Corruption,
    /// The system clock stands before the Unix epoch.
    Clock(String),
    /// Another thread panicked while it held a lock.
    LockPoisoned,
    /// An index entry names a data file that is not open.
    MissingDataFile(u64),
    /// The other side sent something that cannot be understood.
    InvalidData(String),
    /// The value is not UTF-8; the rejected bytes.
    Utf8(Vec<u8>),
    /// The server failed while it served a request.
    ServerInternal,
    /// Another process holds the store directory.
    StoreLocked,
    /// The store directory belongs to another engine.
    EngineMismatch { found: String, requested: String },
}

/// The view of a [`KvsError`].
pub enum KvsErrorView {
    Io(IoErrorView),
    Serde(Seq<char>),
    KeyNotFound,
    UnexpectedCommandType,
    Corruption,
    Clock(Seq<char>),
    LockPoisoned,
    MissingDataFile(u64),
    InvalidData(Seq<char>),
    Utf8(Seq<u8>),
    ServerInternal,
    StoreLocked,
    EngineMismatch { found: Seq<char>, requested: Seq<char> },
}

impl View for KvsError {
    type V = KvsErrorView;

    open spec fn view(&self) -> KvsErrorView {
        match self {
            KvsError::Io(e) => KvsErrorView::Io(e@),
            KvsError::Serde(m) => KvsErrorView::Serde(m@),
            KvsError::KeyNotFound => KvsErrorView::KeyNotFound,
            KvsError::UnexpectedCommandType => KvsErrorView::UnexpectedCommandType,
            KvsError::Corruption => KvsErrorView::Corruption,
            KvsError::Clock(m) => KvsErrorView::Clock(m@),
            KvsError::LockPoisoned => KvsErrorView::LockPoisoned,
            KvsError::MissingDataFile(id) => KvsErrorView::MissingDataFile(*id),
            KvsError::InvalidData(m) => KvsErrorView::InvalidData(m@),
            KvsError::Utf8(bytes) => KvsErrorView::Utf8(bytes@),
            KvsError::ServerInternal => KvsErrorView::ServerInternal,
            KvsError::StoreLocked => KvsErrorView::StoreLocked,
            KvsError::EngineMismatch { found, requested } => KvsErrorView::EngineMismatch {
                found: found@,
                requested: requested@,
            },
        }
    }
}

impl KvsError {
    /// An input/output failure of the given kind and text.
    pub fn io(kind: ErrorKind, message: &str) -> (e: KvsError)
        ensures
            e@ == io_error(kind, message@),
    {
        KvsError::Io(IoError::new(kind, message))
    }

    /// A complaint about what the other side sent.
    pub fn invalid_data(message: &str) -> (e: KvsError)
        ensures
            e@ == KvsErrorView::InvalidData(message@),
    {
        KvsError::InvalidData(message.to_owned())
    }
}

/// The view of an input/output failure.
pub open spec fn io_error(kind: ErrorKind, message: Seq<char>) -> KvsErrorView {
    KvsErrorView::Io(IoErrorView { kind, message })
}

} // verus!
