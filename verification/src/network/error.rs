//! Errors as they travel over the wire.
use vstd::prelude::*;

use crate::error::{KvsError, KvsErrorView};

verus! {

/// What a server tells a client about a request that failed.
#[derive(Debug, Clone, Copy, PartialEq, Eq, Structural)]
pub enum ErrorCode {
    KeyNotFound,
    Internal,
    InvalidRequest,
}

impl ErrorCode {
    /// The byte that stands for a code on the wire.
    pub open spec fn byte(self) -> u8 {
        match self {
            ErrorCode::KeyNotFound => 1,
            ErrorCode::Internal => 2,
            ErrorCode::InvalidRequest => 3,
        }
    }

    /// The text for a code.
    pub open spec fn text(self) -> Seq<char> {
        match self {
            ErrorCode::KeyNotFound => "Key not found"@,
            ErrorCode::Internal => "Internal server error"@,
            ErrorCode::InvalidRequest => "Invalid request"@,
        }
    }

    /// The error that a code stands for at the client.
    pub open spec fn error(self) -> KvsErrorView {
        match self {
            ErrorCode::KeyNotFound => KvsErrorView::KeyNotFound,
            ErrorCode::Internal => KvsErrorView::ServerInternal,
            ErrorCode::InvalidRequest => KvsErrorView::InvalidData("rejected by server"@),
        }
    }

    /// The byte that stands for the code on the wire.
    pub fn as_u8(self) -> (byte: u8)
        ensures
            byte == self.byte(),
    {
        match self {
            ErrorCode::KeyNotFound => 1,
            ErrorCode::Internal => 2,
            ErrorCode::InvalidRequest => 3,
        }
    }

    /// The text for the code.
    pub fn as_str(&self) -> (text: &'static str)
        ensures
            text@ == self.text(),
    {
        match self {
            ErrorCode::KeyNotFound => "Key not found",
            ErrorCode::Internal => "Internal server error",
            ErrorCode::InvalidRequest => "Invalid request",
        }
    }
}

/// The code that a client is told for an error: a missing key and a request
/// that makes no sense are named, all else is the server's own business.
pub open spec fn code_of(err: KvsErrorView) -> ErrorCode {
    match err {
        KvsErrorView::KeyNotFound => ErrorCode::KeyNotFound,
        KvsErrorView::InvalidData(_) => ErrorCode::InvalidRequest,
        _ => ErrorCode::Internal,
    }
}

/// The code that a byte stands for on the wire.
pub open spec fn code_for(byte: u8) -> Option<ErrorCode> {
    if byte == 1 {
        Some(ErrorCode::KeyNotFound)
    } else if byte == 2 {
        Some(ErrorCode::Internal)
    } else if byte == 3 {
        Some(ErrorCode::InvalidRequest)
    } else {
        None
    }
}

impl<'a> vstd::std_specs::convert::FromSpecImpl<&'a KvsError> for ErrorCode {
    open spec fn obeys_from_spec() -> bool {
        true
    }

    open spec fn from_spec(err: &'a KvsError) -> ErrorCode {
        code_of(err@)
    }
}

impl<'a> From<&'a KvsError> for ErrorCode {
    fn from(err: &'a KvsError) -> (code: Self) {
        match err {
            KvsError::KeyNotFound => ErrorCode::KeyNotFound,
            KvsError::InvalidData(_) => ErrorCode::InvalidRequest,
            // io, corruption, locks, ...
            _ => ErrorCode::Internal,
        }
    }
}

impl vstd::std_specs::convert::FromSpecImpl<ErrorCode> for KvsError {
    open spec fn obeys_from_spec() -> bool {
        false
    }

    open spec fn from_spec(code: ErrorCode) -> KvsError {
        arbitrary()
    }
}

impl From<ErrorCode> for KvsError {
    fn from(code: ErrorCode) -> (err: Self)
        ensures
            err@ == code.error(),
    {
        match code {
            ErrorCode::KeyNotFound => KvsError::KeyNotFound,
            ErrorCode::InvalidRequest => KvsError::invalid_data("rejected by server"),
            ErrorCode::Internal => KvsError::ServerInternal,
        }
    }
}

impl vstd::std_specs::convert::TryFromSpecImpl<u8> for ErrorCode {
    open spec fn obeys_try_from_spec() -> bool {
        true
    }

    open spec fn try_from_spec(byte: u8) -> Result<Self, KvsError> {
        match code_for(byte) {
            Some(code) => Ok(code),
            None => Err(KvsError::UnexpectedCommandType),
        }
    }
}

impl TryFrom<u8> for ErrorCode {
    type Error = KvsError;

    fn try_from(byte: u8) -> (res: Result<Self, KvsError>) {
        match byte {
            1 => Ok(ErrorCode::KeyNotFound),
            2 => Ok(ErrorCode::Internal),
            3 => Ok(ErrorCode::InvalidRequest),
            _ => Err(KvsError::UnexpectedCommandType),
        }
    }
}

/// A code that goes over the wire arrives as the same code, and the code of
/// the error that it stands for at the client is that code again.
pub proof fn law_code_round_trip(code: ErrorCode)
    ensures
        code_for(code.byte()) == Some(code),
        code_of(code.error()) == code,
{
}

} // verus!
