//! Talking to a store over a byte stream.
pub mod error;
pub mod protocol;

pub use error::ErrorCode;
pub use protocol::{
    answer, decode_request, decode_response, execute, read_frame, receive, write_frame,
    write_request, write_response, FrameReader, FrameStep, Request, Response, MAX_PAYLOAD,
};
