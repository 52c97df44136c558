//! Requests and responses as bytes.
//!
//! ```text
//! Frame: [u8 msg_type][u32 LE payload_len][payload]
//!
//! Requests  (msg_type): 0 Get  [key]
//!                       1 Put  [u32 key_len][key][value]
//!                       2 Rm   [key]
//! Responses (msg_type): 0 Done
//!                       1 Value [value]
//!                       2 Error [u8 code]
//! ```
use vstd::prelude::*;
use vstd::utf8::{decode_utf8, encode_utf8, valid_utf8};

use super::error::{code_for, code_of, ErrorCode};
use crate::byte_reader::{nothing_left, read_exact};
use crate::bytes_util::{
    law_read_number, law_u32_digits, law_u32_round_trip, le32, push_bytes, push_u32, u32_of,
    BytesUtil,
};
use crate::error::{io_error, ErrorKind, KvsError, KvsErrorView};
use crate::kvstore::KvStore;
use crate::text::{str_from_utf8, string_from_utf8};

verus! {

/// The longest payload that is accepted.
pub const MAX_PAYLOAD: u32 = 16777216;

/// [u8 msg_type][u32 payload_len].
pub const FRAME_HEADER_LEN: usize = 5;

/// The message type of a Get request.
pub const REQ_GET: u8 = 0;

/// The message type of a Put request.
pub const REQ_PUT: u8 = 1;

/// The message type of a Rm request.
pub const REQ_RM: u8 = 2;

/// The message type of a Done response.
pub const RESP_DONE: u8 = 0;

/// The message type of a Value response.
pub const RESP_VALUE: u8 = 1;

/// The message type of an Error response.
pub const RESP_ERROR: u8 = 2;

/// What a client asks for.
#[derive(Debug, PartialEq, Eq)]
pub enum Request<'a> {
    Get { key: &'a str },
    Put { key: &'a str, value: &'a str },
    Rm { key: &'a str },
}

/// The view of a [`Request`].
pub enum RequestView {
    Get { key: Seq<char> },
    Put { key: Seq<char>, value: Seq<char> },
    Rm { key: Seq<char> },
}

impl<'a> View for Request<'a> {
    type V = RequestView;

    open spec fn view(&self) -> RequestView {
        match self {
            Request::Get { key } => RequestView::Get { key: key@ },
            Request::Put { key, value } => RequestView::Put { key: key@, value: value@ },
            Request::Rm { key } => RequestView::Rm { key: key@ },
        }
    }
}

/// What a server answers.
#[derive(Debug, PartialEq, Eq)]
pub enum Response {
    Done,
    Value(String),
    Error(ErrorCode),
}

/// The view of a [`Response`].
pub enum ResponseView {
    Done,
    Value(Seq<char>),
    Error(ErrorCode),
}

impl View for Response {
    type V = ResponseView;

    open spec fn view(&self) -> ResponseView {
        match self {
            Response::Done => ResponseView::Done,
            Response::Value(value) => ResponseView::Value(value@),
            Response::Error(code) => ResponseView::Error(*code),
        }
    }
}

impl RequestView {
    /// The message type of a request.
    pub open spec fn msg_type(self) -> u8 {
        match self {
            RequestView::Get { .. } => REQ_GET,
            RequestView::Put { .. } => REQ_PUT,
            RequestView::Rm { .. } => REQ_RM,
        }
    }

    /// The payload of a request.
    pub open spec fn payload(self) -> Seq<u8> {
        match self {
            RequestView::Get { key } => encode_utf8(key),
            RequestView::Put { key, value } => le32(encode_utf8(key).len() as u32) + encode_utf8(
                key,
            ) + encode_utf8(value),
            RequestView::Rm { key } => encode_utf8(key),
        }
    }
}

impl ResponseView {
    /// The message type of a response.
    pub open spec fn msg_type(self) -> u8 {
        match self {
            ResponseView::Done => RESP_DONE,
            ResponseView::Value(_) => RESP_VALUE,
            ResponseView::Error(_) => RESP_ERROR,
        }
    }

    /// The payload of a response.
    pub open spec fn payload(self) -> Seq<u8> {
        match self {
            ResponseView::Done => Seq::empty(),
            ResponseView::Value(value) => encode_utf8(value),
            ResponseView::Error(code) => seq![code.byte()],
        }
    }
}

/// The bytes of a frame.
pub open spec fn frame(msg_type: u8, payload: Seq<u8>) -> Seq<u8> {
    seq![msg_type] + le32(payload.len() as u32) + payload
}

/// The error of a payload that is longer than a frame may hold.
pub open spec fn too_large() -> KvsErrorView {
    KvsErrorView::InvalidData("payload too large"@)
}

/// The payload length that a frame states.
pub open spec fn stated_payload_len(bytes: Seq<u8>) -> u32 {
    u32_of(bytes.subrange(1, 5))
}

/// What the frame at the front of the bytes is, and the bytes behind it. No
/// byte at all is a clean close; bytes that end inside a frame are an error.
pub open spec fn first_frame(bytes: Seq<u8>) -> (
    Result<Option<(u8, Seq<u8>)>, KvsErrorView>,
    Seq<u8>,
) {
    if bytes.len() == 0 {
        (Ok(None), Seq::empty())
    } else if bytes.len() < FRAME_HEADER_LEN {
        (Err(KvsErrorView::Io(nothing_left())), Seq::empty())
    } else {
        let len = stated_payload_len(bytes);
        if len > MAX_PAYLOAD {
            (Err(too_large()), bytes.skip(5))
        } else if bytes.len() < 5 + len {
            (Err(KvsErrorView::Io(nothing_left())), Seq::empty())
        } else {
            (Ok(Some((bytes[0], bytes.subrange(5, 5 + len)))), bytes.skip(5 + len))
        }
    }
}

/// What a reader of frames has to do next.
#[derive(Debug)]
pub enum FrameStep {
    /// Read this many bytes more.
    Need(usize),
    /// Nothing: the frame is there.
    Frame(u8, Vec<u8>),
    /// Give up.
    Fail(KvsError),
}

/// The view of a [`FrameStep`].
pub enum FrameStepView {
    Need(int),
    Frame(u8, Seq<u8>),
    Fail(KvsErrorView),
}

impl View for FrameStep {
    type V = FrameStepView;

    open spec fn view(&self) -> FrameStepView {
        match self {
            FrameStep::Need(n) => FrameStepView::Need(*n as int),
            FrameStep::Frame(msg_type, payload) => FrameStepView::Frame(*msg_type, payload@),
            FrameStep::Fail(e) => FrameStepView::Fail(e@),
        }
    }
}

/// What has to be done next when these bytes of a frame were read.
pub open spec fn frame_step(bytes: Seq<u8>) -> FrameStepView {
    if bytes.len() == 0 {
        FrameStepView::Need(1)
    } else if bytes.len() < FRAME_HEADER_LEN {
        FrameStepView::Need(5 - bytes.len())
    } else {
        let len = stated_payload_len(bytes);
        if len > MAX_PAYLOAD {
            FrameStepView::Fail(too_large())
        } else if bytes.len() < 5 + len {
            FrameStepView::Need(5 + len - bytes.len())
        } else {
            FrameStepView::Frame(bytes[0], bytes.subrange(5, 5 + len))
        }
    }
}

/// What a stream that ends behind these bytes of a frame means: before the
/// first byte it is a clean close, anywhere later the frame is torn.
pub open spec fn stream_end(bytes: Seq<u8>) -> Result<(), KvsErrorView> {
    if bytes.len() == 0 {
        Ok(())
    } else {
        Err(KvsErrorView::Io(nothing_left()))
    }
}

/// Puts a frame together from the pieces that a stream hands out.
pub struct FrameReader {
    bytes: Vec<u8>,
}

impl View for FrameReader {
    type V = Seq<u8>;

    closed spec fn view(&self) -> Seq<u8> {
        self.bytes@
    }
}

impl FrameReader {
    /// A reader in front of a frame.
    pub fn new() -> (res: FrameReader)
        ensures
            res@ == Seq::<u8>::empty(),
    {
        FrameReader { bytes: Vec::new() }
    }

    /// What has to be done next.
    pub fn step(&self) -> (step: FrameStep)
        ensures
            step@ == frame_step(self@),
    {
        let bytes = self.bytes.as_slice();
        let got: usize = bytes.len();
        if got == 0 {
            return FrameStep::Need(1);
        }
        if got < FRAME_HEADER_LEN {
            return FrameStep::Need(FRAME_HEADER_LEN - got);
        }
        let mut cursor: usize = 1;
        let len: u32 = match BytesUtil::read_u32(bytes, &mut cursor) {
            Ok(len) => len,
            Err(e) => return FrameStep::Fail(KvsError::Io(e)),
        };
        if len > MAX_PAYLOAD {
            return FrameStep::Fail(KvsError::invalid_data("payload too large"));
        }
        let rest: usize = got - FRAME_HEADER_LEN;
        if rest < len as usize {
            return FrameStep::Need(len as usize - rest);
        }
        let payload = vstd::slice::slice_to_vec(
            vstd::slice::slice_subrange(bytes, FRAME_HEADER_LEN, FRAME_HEADER_LEN + len as usize),
        );
        assert(payload@ =~= self@.subrange(5, 5 + len));
        FrameStep::Frame(bytes[0], payload)
    }

    /// Takes in bytes of the stream.
    pub fn feed(&mut self, bytes: &[u8])
        ensures
            final(self)@ == old(self)@ + bytes@,
    {
        push_bytes(&mut self.bytes, bytes);
    }

    /// What it means that the stream ends here.
    pub fn end_of_stream(&self) -> (res: Result<(), KvsError>)
        ensures
            match stream_end(self@) {
                Ok(()) => res is Ok,
                Err(e) => res is Err && res->Err_0@ == e,
            },
    {
        if self.bytes.len() == 0 {
            Ok(())
        } else {
            Err(KvsError::io(ErrorKind::UnexpectedEof, "failed to fill whole buffer"))
        }
    }
}

/// Reads the frame at the front of the bytes.
pub fn read_frame(reader: &mut &[u8]) -> (res: Result<Option<(u8, Vec<u8>)>, KvsError>)
    ensures
        match first_frame(old(reader)@).0 {
            Ok(Some((msg_type, payload))) => {
                &&& res is Ok
                &&& res->Ok_0 is Some
                &&& (res->Ok_0->Some_0).0 == msg_type
                &&& (res->Ok_0->Some_0).1@ == payload
            },
            Ok(None) => res is Ok && res->Ok_0 is None,
            Err(e) => res is Err && res->Err_0@ == e,
        },
        final(reader)@ == first_frame(old(reader)@).1,
{
    let mut frames = FrameReader::new();
    let ghost all = reader@;
    let ghost mut at: int = 0;
    assert(all.take(0) =~= Seq::<u8>::empty());
    assert(all.skip(0) =~= all);
    loop
        invariant
            all == old(reader)@,
            0 <= at <= all.len(),
            frames@ == all.take(at),
            reader@ == all.skip(at),
            at <= 1 || at == 5 || (stated_payload_len(all) <= MAX_PAYLOAD && at == 5
                + stated_payload_len(all)),
        decreases all.len() - at,
    {
        proof {
            if at >= 5 {
                let len = stated_payload_len(all) as int;
                assert(all.take(at).subrange(1, 5) =~= all.subrange(1, 5));
                if at == 5 + len {
                    assert(all.take(at).subrange(5, 5 + len) =~= all.subrange(5, 5 + len));
                }
            }
        }
        match frames.step() {
            FrameStep::Need(n) => {
                match read_exact(reader, n) {
                    Ok(bytes) => {
                        frames.feed(bytes);
                        proof {
                            assert(all.take(at) + all.skip(at).take(n as int) =~= all.take(at + n));
                            assert(all.skip(at).skip(n as int) =~= all.skip(at + n));
                            at = at + n;
                        }
                    },
                    Err(_) => {
                        return match frames.end_of_stream() {
                            Ok(()) => Ok(None),
                            Err(e) => Err(e),
                        };
                    },
                }
            },
            FrameStep::Frame(msg_type, payload) => return Ok(Some((msg_type, payload))),
            FrameStep::Fail(e) => return Err(e),
        }
    }
}

/// Appends a frame.
pub fn write_frame(writer: &mut Vec<u8>, msg_type: u8, payload: &[u8]) -> (res: Result<
    (),
    KvsError,
>)
    ensures
        payload@.len() <= u32::MAX ==> res is Ok && final(writer)@ == old(writer)@ + frame(
            msg_type,
            payload@,
        ),
        payload@.len() > u32::MAX ==> res is Err && res->Err_0@ == too_large() && final(writer)@
            == old(writer)@,
{
    let size: usize = payload.len();
    if size as u64 > u32::MAX as u64 {
        return Err(KvsError::invalid_data("payload too large"));
    }
    writer.push(msg_type);
    push_u32(writer, size as u32);
    push_bytes(writer, payload);
    assert(writer@ =~= old(writer)@ + frame(msg_type, payload@));
    Ok(())
}

/// Appends the frame of a request.
pub fn write_request(writer: &mut Vec<u8>, req: &Request) -> (res: Result<(), KvsError>)
    ensures
        req@.payload().len() <= u32::MAX ==> res is Ok && final(writer)@ == old(writer)@ + frame(
            req@.msg_type(),
            req@.payload(),
        ),
        req@.payload().len() > u32::MAX ==> res is Err && res->Err_0@ == too_large()
            && final(writer)@ == old(writer)@,
{
    match req {
        Request::Get { key } => write_frame(writer, REQ_GET, key.as_bytes()),
        Request::Rm { key } => write_frame(writer, REQ_RM, key.as_bytes()),
        Request::Put { key, value } => {
            let key_bytes = key.as_bytes();
            let mut buf: Vec<u8> = Vec::new();
            push_u32(&mut buf, key_bytes.len() as u32);
            push_bytes(&mut buf, key_bytes);
            push_bytes(&mut buf, value.as_bytes());
            assert(buf@ =~= req@.payload());
            write_frame(writer, REQ_PUT, buf.as_slice())
        },
    }
}

/// Appends the frame of a response.
pub fn write_response(writer: &mut Vec<u8>, resp: &Response) -> (res: Result<(), KvsError>)
    ensures
        resp@.payload().len() <= u32::MAX ==> res is Ok && final(writer)@ == old(writer)@ + frame(
            resp@.msg_type(),
            resp@.payload(),
        ),
        resp@.payload().len() > u32::MAX ==> res is Err && res->Err_0@ == too_large()
            && final(writer)@ == old(writer)@,
{
    match resp {
        Response::Done => {
            let none: Vec<u8> = Vec::new();
            assert(none@ =~= resp@.payload());
            write_frame(writer, RESP_DONE, none.as_slice())
        },
        Response::Value(value) => write_frame(writer, RESP_VALUE, value.as_str().as_bytes()),
        Response::Error(code) => {
            let mut byte: Vec<u8> = Vec::new();
            byte.push(code.as_u8());
            assert(byte@ =~= resp@.payload());
            write_frame(writer, RESP_ERROR, byte.as_slice())
        },
    }
}

/// The text that bytes of a request encode.
pub open spec fn utf8_text(bytes: Seq<u8>) -> Result<Seq<char>, KvsErrorView> {
    if valid_utf8(bytes) {
        Ok(decode_utf8(bytes))
    } else {
        Err(KvsErrorView::InvalidData("invalid utf-8"@))
    }
}

/// The text that bytes of a request encode.
fn utf8(b: &[u8]) -> (res: Result<&str, KvsError>)
    ensures
        match utf8_text(b@) {
            Ok(text) => res is Ok && res->Ok_0@ == text,
            Err(e) => res is Err && res->Err_0@ == e,
        },
{
    match str_from_utf8(b) {
        Some(s) => Ok(s),
        None => Err(KvsError::invalid_data("invalid utf-8")),
    }
}

/// The request that the payload of a Put request stands for.
pub open spec fn put_request(payload: Seq<u8>) -> Result<RequestView, KvsErrorView> {
    let key_len = u32_of(payload.subrange(0, 4)) as int;
    if payload.len() < 4 || payload.len() < 4 + key_len {
        Err(KvsErrorView::InvalidData("short set payload"@))
    } else {
        match (utf8_text(payload.subrange(4, 4 + key_len)), utf8_text(payload.skip(4 + key_len))) {
            (Err(e), _) => Err(e),
            (_, Err(e)) => Err(e),
            (Ok(key), Ok(value)) => Ok(RequestView::Put { key, value }),
        }
    }
}

/// The request that a frame stands for.
pub open spec fn request_in(msg_type: u8, payload: Seq<u8>) -> Result<RequestView, KvsErrorView> {
    if msg_type == REQ_GET {
        match utf8_text(payload) {
            Ok(key) => Ok(RequestView::Get { key }),
            Err(e) => Err(e),
        }
    } else if msg_type == REQ_RM {
        match utf8_text(payload) {
            Ok(key) => Ok(RequestView::Rm { key }),
            Err(e) => Err(e),
        }
    } else if msg_type == REQ_PUT {
        put_request(payload)
    } else {
        Err(KvsErrorView::UnexpectedCommandType)
    }
}

/// Decodes a request.
pub fn decode_request<'a>(msg_type: u8, payload: &'a [u8]) -> (res: Result<Request<'a>, KvsError>)
    ensures
        match request_in(msg_type, payload@) {
            Ok(req) => res is Ok && res->Ok_0@ == req,
            Err(e) => res is Err && res->Err_0@ == e,
        },
{
    match msg_type {
        REQ_GET => match utf8(payload) {
            Ok(key) => Ok(Request::Get { key }),
            Err(e) => Err(e),
        },
        REQ_RM => match utf8(payload) {
            Ok(key) => Ok(Request::Rm { key }),
            Err(e) => Err(e),
        },
        REQ_PUT => {
            let size: usize = payload.len();
            let mut cursor: usize = 0;
            let key_len: usize = match BytesUtil::read_u32(payload, &mut cursor) {
                Ok(len) => len as usize,
                Err(_) => return Err(KvsError::invalid_data("short set payload")),
            };
            if size - 4 < key_len {
                return Err(KvsError::invalid_data("short set payload"));
            }
            let split: usize = 4 + key_len;
            let key = match utf8(vstd::slice::slice_subrange(payload, 4, split)) {
                Ok(key) => key,
                Err(e) => return Err(e),
            };
            let rest = vstd::slice::slice_subrange(payload, split, size);
            assert(rest@ =~= payload@.skip(split as int));
            let value = match utf8(rest) {
                Ok(value) => value,
                Err(e) => return Err(e),
            };
            Ok(Request::Put { key, value })
        },
        _ => Err(KvsError::UnexpectedCommandType),
    }
}

/// The response that a frame stands for.
pub open spec fn response_in(msg_type: u8, payload: Seq<u8>) -> Result<ResponseView, KvsErrorView> {
    if msg_type == RESP_DONE {
        Ok(ResponseView::Done)
    } else if msg_type == RESP_VALUE {
        if valid_utf8(payload) {
            Ok(ResponseView::Value(decode_utf8(payload)))
        } else {
            Err(KvsErrorView::Utf8(payload))
        }
    } else if msg_type == RESP_ERROR {
        if payload.len() == 0 {
            Err(KvsErrorView::InvalidData("missing error code"@))
        } else {
            match code_for(payload[0]) {
                Some(code) => Ok(ResponseView::Error(code)),
                None => Err(KvsErrorView::UnexpectedCommandType),
            }
        }
    } else {
        Err(KvsErrorView::UnexpectedCommandType)
    }
}

/// Decodes a response.
pub fn decode_response(msg_type: u8, payload: &[u8]) -> (res: Result<Response, KvsError>)
    ensures
        match response_in(msg_type, payload@) {
            Ok(resp) => res is Ok && res->Ok_0@ == resp,
            Err(e) => res is Err && res->Err_0@ == e,
        },
{
    match msg_type {
        RESP_DONE => Ok(Response::Done),
        RESP_VALUE => match string_from_utf8(vstd::slice::slice_to_vec(payload)) {
            Ok(value) => Ok(Response::Value(value)),
            Err(bytes) => Err(KvsError::Utf8(bytes)),
        },
        RESP_ERROR => {
            if payload.len() == 0 {
                return Err(KvsError::invalid_data("missing error code"));
            }
            match ErrorCode::try_from(payload[0]) {
                Ok(code) => Ok(Response::Error(code)),
                Err(e) => Err(e),
            }
        },
        _ => Err(KvsError::UnexpectedCommandType),
    }
}

/// The response to what a store says to a read.
pub open spec fn reply_to_get(result: Result<Option<String>, KvsError>) -> ResponseView {
    match result {
        Ok(Some(value)) => ResponseView::Value(value@),
        Ok(None) => ResponseView::Error(ErrorCode::KeyNotFound),
        Err(e) => ResponseView::Error(code_of(e@)),
    }
}

/// The response to what a store says to a write.
pub open spec fn reply_to_write(result: Result<(), KvsError>) -> ResponseView {
    match result {
        Ok(()) => ResponseView::Done,
        Err(e) => ResponseView::Error(code_of(e@)),
    }
}

/// The response to what a store says to a read.
pub fn get_response(result: Result<Option<String>, KvsError>) -> (resp: Response)
    ensures
        resp@ == reply_to_get(result),
{
    match result {
        Ok(Some(value)) => Response::Value(value),
        Ok(None) => Response::Error(ErrorCode::KeyNotFound),
        Err(e) => Response::Error(ErrorCode::from(&e)),
    }
}

/// The response to what a store says to a write.
pub fn write_result_response(result: Result<(), KvsError>) -> (resp: Response)
    ensures
        resp@ == reply_to_write(result),
{
    match result {
        Ok(()) => Response::Done,
        Err(e) => Response::Error(ErrorCode::from(&e)),
    }
}

/// Access to a store for one call. Each method takes the access with it, so
/// whoever is handed one can make one call at most, and owes either that call
/// or word that the store is left alone.
pub trait OneCall: Sized {
    /// Whether a read of a key was made, and returned this.
    spec fn did_get(self, key: &str, result: Result<Option<String>, KvsError>) -> bool;

    /// Whether a key was given a value, and this was returned.
    spec fn did_set(self, key: &str, value: &str, result: Result<(), KvsError>) -> bool;

    /// Whether a key was removed, and this was returned.
    spec fn did_remove(self, key: &str, result: Result<(), KvsError>) -> bool;

    /// Whether the store was left alone.
    spec fn left_alone(self) -> bool;

    /// Makes a read the one call.
    fn get_once(self, key: &str) -> (result: Result<Option<String>, KvsError>)
        ensures
            self.did_get(key, result),
    ;

    /// Makes a write the one call.
    fn set_once(self, key: &str, value: &str) -> (result: Result<(), KvsError>)
        ensures
            self.did_set(key, value, result),
    ;

    /// Makes a removal the one call.
    fn remove_once(self, key: &str) -> (result: Result<(), KvsError>)
        ensures
            self.did_remove(key, result),
    ;

    /// Makes no call.
    fn leave_alone(self)
        ensures
            self.left_alone(),
    ;
}

impl<'a, S: KvStore> OneCall for &'a S {
    open spec fn did_get(self, key: &str, result: Result<Option<String>, KvsError>) -> bool {
        call_ensures(S::get, (self, key), result)
    }

    open spec fn did_set(self, key: &str, value: &str, result: Result<(), KvsError>) -> bool {
        call_ensures(S::set, (self, key, value), result)
    }

    open spec fn did_remove(self, key: &str, result: Result<(), KvsError>) -> bool {
        call_ensures(S::remove, (self, key), result)
    }

    open spec fn left_alone(self) -> bool {
        true
    }

    fn get_once(self, key: &str) -> (result: Result<Option<String>, KvsError>) {
        S::get(self, key)
    }

    fn set_once(self, key: &str, value: &str) -> (result: Result<(), KvsError>) {
        S::set(self, key, value)
    }

    fn remove_once(self, key: &str) -> (result: Result<(), KvsError>) {
        S::remove(self, key)
    }

    fn leave_alone(self) {
    }
}

/// Whether a response is what a request gets from a store: one call of the
/// method that the request is about, with its key and value, and the reply to
/// whatever that call returned.
pub open spec fn served_by<C: OneCall>(store: C, req: Request, resp: ResponseView) -> bool {
    match req {
        Request::Get { key } => exists|result: Result<Option<String>, KvsError>|
            #[trigger] store.did_get(key, result) && resp == reply_to_get(result),
        Request::Put { key, value } => exists|result: Result<(), KvsError>|
            #[trigger] store.did_set(key, value, result) && resp == reply_to_write(result),
        Request::Rm { key } => exists|result: Result<(), KvsError>|
            #[trigger] store.did_remove(key, result) && resp == reply_to_write(result),
    }
}

/// Serves a request from a store, to which it has access for one call.
pub fn execute<C: OneCall>(store: C, req: Request) -> (resp: Response)
    ensures
        served_by(store, req, resp@),
{
    match req {
        Request::Get { key } => get_response(store.get_once(key)),
        Request::Put { key, value } => write_result_response(store.set_once(key, value)),
        Request::Rm { key } => write_result_response(store.remove_once(key)),
    }
}

/// Serves a frame from a store, to which it has access for one call. A frame
/// that is no request is answered as such, and the store is left alone.
pub fn answer<C: OneCall>(store: C, msg_type: u8, payload: &[u8]) -> (resp: Response)
    ensures
        match request_in(msg_type, payload@) {
            Ok(view) => exists|req: Request| #[trigger]
                served_by(store, req, resp@) && req@ == view,
            Err(_) => {
                &&& store.left_alone()
                &&& resp@ == ResponseView::Error(ErrorCode::InvalidRequest)
            },
        },
{
    match decode_request(msg_type, payload) {
        Ok(req) => execute(store, req),
        Err(_) => {
            store.leave_alone();
            Response::Error(ErrorCode::InvalidRequest)
        },
    }
}

/// What a client makes of the frame that it got for a request.
pub open spec fn received(frame: Option<(u8, Seq<u8>)>) -> Result<ResponseView, KvsErrorView> {
    match frame {
        None => Err(io_error(ErrorKind::UnexpectedEof, "server closed the connection"@)),
        Some((msg_type, payload)) => match response_in(msg_type, payload) {
            Ok(ResponseView::Error(code)) => Err(code.error()),
            other => other,
        },
    }
}

/// What a client makes of the frame that it got for a request: an error that
/// the server told is an error again.
pub fn receive(frame: Option<(u8, Vec<u8>)>) -> (res: Result<Response, KvsError>)
    ensures
        match received(
            match frame {
                Some((msg_type, payload)) => Some((msg_type, payload@)),
                None => None,
            },
        ) {
            Ok(resp) => res is Ok && res->Ok_0@ == resp,
            Err(e) => res is Err && res->Err_0@ == e,
        },
{
    match frame {
        None => Err(KvsError::io(ErrorKind::UnexpectedEof, "server closed the connection")),
        Some((msg_type, payload)) => match decode_response(msg_type, payload.as_slice()) {
            Ok(Response::Error(code)) => Err(KvsError::from(code)),
            Ok(resp) => Ok(resp),
            Err(e) => Err(e),
        },
    }
}

/// A frame that was written is read back as it was, and what stands behind it
/// is left for the next read: frames come out one by one, in their order.
pub proof fn law_frame_round_trip(msg_type: u8, payload: Seq<u8>, rest: Seq<u8>)
    requires
        payload.len() <= MAX_PAYLOAD,
    ensures
        first_frame(frame(msg_type, payload) + rest) == (
            Ok::<Option<(u8, Seq<u8>)>, KvsErrorView>(Some((msg_type, payload))),
            rest,
        ),
{
    let bytes = frame(msg_type, payload) + rest;
    let end = 5 + payload.len() as int;
    law_u32_round_trip(payload.len() as u32);
    assert(bytes.subrange(1, 5) =~= le32(payload.len() as u32));
    assert(bytes.subrange(5, end) =~= payload);
    assert(bytes.skip(end) =~= rest);
}

/// A frame that is cut short is an error, unless nothing of it is there.
pub proof fn law_torn_frame(msg_type: u8, payload: Seq<u8>, n: int)
    requires
        payload.len() <= MAX_PAYLOAD,
        0 < n < frame(msg_type, payload).len(),
    ensures
        first_frame(frame(msg_type, payload).take(n)).0 == Err::<
            Option<(u8, Seq<u8>)>,
            KvsErrorView,
        >(KvsErrorView::Io(nothing_left())),
{
    let bytes = frame(msg_type, payload).take(n);
    law_u32_round_trip(payload.len() as u32);
    if n >= 5 {
        assert(bytes.subrange(1, 5) =~= le32(payload.len() as u32));
    }
}

/// A frame whose stated length is over the limit is refused, whatever follows.
pub proof fn law_oversized_frame(msg_type: u8, len: u32, rest: Seq<u8>)
    requires
        len > MAX_PAYLOAD,
    ensures
        first_frame(seq![msg_type] + le32(len) + rest).0 == Err::<
            Option<(u8, Seq<u8>)>,
            KvsErrorView,
        >(too_large()),
{
    let bytes = seq![msg_type] + le32(len) + rest;
    law_u32_round_trip(len);
    assert(bytes.subrange(1, 5) =~= le32(len));
}

/// A request that was encoded decodes to the same request.
pub proof fn law_request_round_trip(req: RequestView)
    requires
        req.payload().len() <= u32::MAX,
    ensures
        request_in(req.msg_type(), req.payload()) == Ok::<RequestView, KvsErrorView>(req),
{
    match req {
        RequestView::Get { key } => lemma_text_round_trip(key),
        RequestView::Rm { key } => lemma_text_round_trip(key),
        RequestView::Put { key, value } => {
            let payload = req.payload();
            let key_len = encode_utf8(key).len() as int;
            law_u32_round_trip(key_len as u32);
            assert(payload.subrange(0, 4) =~= le32(key_len as u32));
            assert(payload.subrange(4, 4 + key_len) =~= encode_utf8(key));
            assert(payload.skip(4 + key_len) =~= encode_utf8(value));
            lemma_text_round_trip(key);
            lemma_text_round_trip(value);
        },
    }
}

/// A response that was encoded decodes to the same response.
pub proof fn law_response_round_trip(resp: ResponseView)
    ensures
        response_in(resp.msg_type(), resp.payload()) == Ok::<ResponseView, KvsErrorView>(resp),
{
    if let ResponseView::Value(value) = resp {
        lemma_text_round_trip(value);
    }
}

/// A request that is sent arrives as it was, whatever is sent behind it.
pub proof fn law_request_over_the_wire(req: RequestView, rest: Seq<u8>)
    requires
        req.payload().len() <= MAX_PAYLOAD,
    ensures
        ({
            let (res, left) = first_frame(frame(req.msg_type(), req.payload()) + rest);
            &&& res is Ok
            &&& res->Ok_0 is Some
            &&& request_in((res->Ok_0->Some_0).0, (res->Ok_0->Some_0).1) == Ok::<
                RequestView,
                KvsErrorView,
            >(req)
            &&& left == rest
        }),
{
    law_frame_round_trip(req.msg_type(), req.payload(), rest);
    law_request_round_trip(req);
}

/// A response that is sent arrives as it was, whatever is sent behind it.
pub proof fn law_response_over_the_wire(resp: ResponseView, rest: Seq<u8>)
    requires
        resp.payload().len() <= MAX_PAYLOAD,
    ensures
        ({
            let (res, left) = first_frame(frame(resp.msg_type(), resp.payload()) + rest);
            &&& res is Ok
            &&& res->Ok_0 is Some
            &&& response_in((res->Ok_0->Some_0).0, (res->Ok_0->Some_0).1) == Ok::<
                ResponseView,
                KvsErrorView,
            >(resp)
            &&& left == rest
        }),
{
    law_frame_round_trip(resp.msg_type(), resp.payload(), rest);
    law_response_round_trip(resp);
}

proof fn lemma_text_round_trip(text: Seq<char>)
    ensures
        valid_utf8(encode_utf8(text)),
        decode_utf8(encode_utf8(text)) == text,
{
    vstd::utf8::encode_utf8_valid_utf8(text);
    vstd::utf8::encode_utf8_decode_utf8(text);
}

/// An error of the store arrives at the client as the error of its kind: a
/// missing key as a missing key, a senseless request as one, all else as a
/// failure of the server.
pub proof fn law_error_over_the_wire(err: KvsError)
    ensures
        ({
            let resp = reply_to_write(Err(err));
            received(Some((resp.msg_type(), resp.payload()))) == Err::<ResponseView, KvsErrorView>(
                code_of(err@).error(),
            )
        }),
{
    law_response_round_trip(reply_to_write(Err(err)));
}

/// What a read, a write and a removal return to a caller who has access to a
/// store for one call, where the store holds `before` up to that call and
/// `after` behind it.
pub open spec fn acts_on<C: OneCall>(
    store: C,
    before: Map<Seq<char>, Seq<char>>,
    after: Map<Seq<char>, Seq<char>>,
) -> bool {
    &&& forall|key: &str, result: Result<Option<String>, KvsError>| #[trigger]
        store.did_get(key, result) ==> after == before && match result {
            Ok(Some(value)) => before.contains_key(key@) && value@ == before[key@],
            Ok(None) => !before.contains_key(key@),
            Err(_) => false,
        }
    &&& forall|key: &str, value: &str, result: Result<(), KvsError>| #[trigger]
        store.did_set(key, value, result) ==> result is Ok && after == before.insert(key@, value@)
    &&& forall|key: &str, result: Result<(), KvsError>| #[trigger]
        store.did_remove(key, result) ==> match result {
            Ok(()) => before.contains_key(key@) && after == before.remove(key@),
            Err(e) => !before.contains_key(key@) && after == before && e is KeyNotFound,
        }
    &&& store.left_alone() ==> after == before
}

/// Serving a frame carries out the one request that it holds, once, and the
/// reply is that of this call: a read is answered with the value, a write is
/// done, a removal is done if the key was there and else answered with that it
/// was not. A frame that is no request changes nothing.
pub proof fn law_answer<C: OneCall>(
    store: C,
    before: Map<Seq<char>, Seq<char>>,
    after: Map<Seq<char>, Seq<char>>,
    msg_type: u8,
    payload: &[u8],
    resp: Response,
)
    requires
        acts_on(store, before, after),
        call_ensures(answer::<C>, (store, msg_type, payload), resp),
    ensures
        match request_in(msg_type, payload@) {
            Ok(RequestView::Get { key }) => {
                &&& after == before
                &&& resp@ == if before.contains_key(key) {
                    ResponseView::Value(before[key])
                } else {
                    ResponseView::Error(ErrorCode::KeyNotFound)
                }
            },
            Ok(RequestView::Put { key, value }) => {
                &&& after == before.insert(key, value)
                &&& resp@ == ResponseView::Done
            },
            Ok(RequestView::Rm { key }) => {
                &&& after == before.remove(key)
                &&& resp@ == if before.contains_key(key) {
                    ResponseView::Done
                } else {
                    ResponseView::Error(ErrorCode::KeyNotFound)
                }
            },
            Err(_) => {
                &&& after == before
                &&& resp@ == ResponseView::Error(ErrorCode::InvalidRequest)
            },
        },
{
    if let Ok(view) = request_in(msg_type, payload@) {
        let req = choose|req: Request| #[trigger] served_by(store, req, resp@) && req@ == view;
        match req {
            Request::Rm { key } => {
                if !before.contains_key(key@) {
                    assert(before.remove(key@) =~= before);
                }
            },
            _ => {},
        }
    }
}

/// A client that sends a request to a server, and makes of the answer what a
/// client makes of it, learns what the store holds: the value of the key, that
/// it is not there, or that the write is done.
pub proof fn law_client_and_server<C: OneCall>(
    store: C,
    before: Map<Seq<char>, Seq<char>>,
    after: Map<Seq<char>, Seq<char>>,
    req: RequestView,
    payload: &[u8],
    resp: Response,
)
    requires
        acts_on(store, before, after),
        req.payload().len() <= u32::MAX,
        payload@ == req.payload(),
        call_ensures(answer::<C>, (store, req.msg_type(), payload), resp),
    ensures
        ({
            let learned = received(Some((resp@.msg_type(), resp@.payload())));
            match req {
                RequestView::Get { key } => after == before && learned == (
                if before.contains_key(key) {
                    Ok::<ResponseView, KvsErrorView>(ResponseView::Value(before[key]))
                } else {
                    Err(KvsErrorView::KeyNotFound)
                }),
                RequestView::Put { key, value } => after == before.insert(key, value) && learned
                    == Ok::<ResponseView, KvsErrorView>(ResponseView::Done),
                RequestView::Rm { key } => after == before.remove(key) && learned == (
                if before.contains_key(key) {
                    Ok::<ResponseView, KvsErrorView>(ResponseView::Done)
                } else {
                    Err(KvsErrorView::KeyNotFound)
                }),
            }
        }),
{
    law_request_round_trip(req);
    law_answer(store, before, after, req.msg_type(), payload, resp);
    law_response_round_trip(resp@);
}

/// For a store that is reached through a reference, the one call is a call of
/// its own method with the key and the value of the request.
pub proof fn law_served_by_store<S: KvStore>(store: &S, req: Request, resp: ResponseView)
    requires
        served_by(store, req, resp),
    ensures
        match req {
            Request::Get { key } => exists|result: Result<Option<String>, KvsError>|
                #[trigger] call_ensures(S::get, (store, key), result) && resp == reply_to_get(
                    result,
                ),
            Request::Put { key, value } => exists|result: Result<(), KvsError>|
                #[trigger] call_ensures(S::set, (store, key, value), result) && resp
                    == reply_to_write(result),
            Request::Rm { key } => exists|result: Result<(), KvsError>|
                #[trigger] call_ensures(S::remove, (store, key), result) && resp == reply_to_write(
                    result,
                ),
        },
{
    match req {
        Request::Get { key } => {
            let result = choose|result: Result<Option<String>, KvsError>|
                #[trigger] store.did_get(key, result) && resp == reply_to_get(result);
            assert(call_ensures(S::get, (store, key), result));
        },
        Request::Put { key, value } => {
            let result = choose|result: Result<(), KvsError>|
                #[trigger] store.did_set(key, value, result) && resp == reply_to_write(result);
            assert(call_ensures(S::set, (store, key, value), result));
        },
        Request::Rm { key } => {
            let result = choose|result: Result<(), KvsError>|
                #[trigger] store.did_remove(key, result) && resp == reply_to_write(result);
            assert(call_ensures(S::remove, (store, key), result));
        },
    }
}

/// The layout of a frame: type, length of the payload to the base 256, least
/// significant first, and the payload.
pub proof fn law_frame_layout(msg_type: u8, payload: Seq<u8>)
    requires
        payload.len() <= u32::MAX,
    ensures
        ({
            let f = frame(msg_type, payload);
            &&& f.len() == 5 + payload.len()
            &&& f[0] == msg_type
            &&& f[1] + 0x100 * f[2] + 0x1_0000 * f[3] + 0x100_0000 * f[4] == payload.len()
            &&& f.skip(5) == payload
        }),
{
    let f = frame(msg_type, payload);
    law_u32_digits(payload.len() as u32);
    assert(f.skip(5) =~= payload);
}

/// The layout of requests and responses: which type each has, and that its
/// payload is the text that it carries, the key of a write behind its length.
pub proof fn law_message_layout(key: Seq<char>, value: Seq<char>, code: ErrorCode)
    requires
        encode_utf8(key).len() <= u32::MAX,
    ensures
        ({
            let get = RequestView::Get { key };
            let put = RequestView::Put { key, value };
            let rm = RequestView::Rm { key };
            let k = encode_utf8(key).len() as int;
            let p = put.payload();
            &&& get.msg_type() == 0 && put.msg_type() == 1 && rm.msg_type() == 2
            &&& get.payload() == encode_utf8(key) && rm.payload() == encode_utf8(key)
            &&& p[0] + 0x100 * p[1] + 0x1_0000 * p[2] + 0x100_0000 * p[3] == k
            &&& p.subrange(4, 4 + k) == encode_utf8(key)
            &&& p.skip(4 + k) == encode_utf8(value)
        }),
        ({
            let (done, text) = (ResponseView::Done, ResponseView::Value(value));
            let error = ResponseView::Error(code);
            &&& done.msg_type() == 0 && text.msg_type() == 1 && error.msg_type() == 2
            &&& done.payload().len() == 0
            &&& text.payload() == encode_utf8(value)
            &&& error.payload().len() == 1
            &&& error.payload()[0] == (match code {
                ErrorCode::KeyNotFound => 1u8,
                ErrorCode::Internal => 2,
                ErrorCode::InvalidRequest => 3,
            })
        }),
{
    let k = encode_utf8(key).len() as int;
    let p = RequestView::Put { key, value }.payload();
    law_u32_digits(k as u32);
    assert(p.subrange(4, 4 + k) =~= encode_utf8(key));
    assert(p.skip(4 + k) =~= encode_utf8(value));
}

/// A frame that arrives in pieces is put together: first its type is asked for,
/// then the rest of its header, then the rest of its payload, and never a byte
/// behind it; at its end it is there.
pub proof fn law_frame_in_pieces(msg_type: u8, payload: Seq<u8>, n: int)
    requires
        payload.len() <= MAX_PAYLOAD,
        0 <= n <= frame(msg_type, payload).len(),
    ensures
        ({
            let f = frame(msg_type, payload);
            match frame_step(f.take(n)) {
                FrameStepView::Need(more) => n < f.len() && more == (if n == 0 {
                    1
                } else if n < 5 {
                    5 - n
                } else {
                    f.len() - n
                }),
                FrameStepView::Frame(t, p) => n == f.len() && t == msg_type && p == payload,
                FrameStepView::Fail(_) => false,
            }
        }),
{
    let f = frame(msg_type, payload);
    let piece = f.take(n);
    law_u32_round_trip(payload.len() as u32);
    if n >= 5 {
        assert(piece.subrange(1, 5) =~= le32(payload.len() as u32));
        if n == f.len() {
            assert(piece.subrange(5, 5 + payload.len() as int) =~= payload);
        }
    }
}

/// A payload may have 16 MiB, and not one byte more.
pub proof fn law_payload_limit(msg_type: u8, payload: Seq<u8>)
    requires
        payload.len() <= u32::MAX,
    ensures
        first_frame(frame(msg_type, payload)).0 is Ok <==> payload.len() <= 16 * 1024 * 1024,
{
    if payload.len() <= MAX_PAYLOAD {
        law_frame_round_trip(msg_type, payload, Seq::empty());
        assert(frame(msg_type, payload) + Seq::<u8>::empty() =~= frame(msg_type, payload));
    } else {
        law_oversized_frame(msg_type, payload.len() as u32, payload);
    }
}

/// Which reply a result gets: a value only for a value, and each error its
/// code. Only a missing key is told as one.
pub proof fn law_replies(got: Result<Option<String>, KvsError>, done: Result<(), KvsError>)
    ensures
        reply_to_get(got) is Value <==> got is Ok && got->Ok_0 is Some,
        reply_to_get(got) is Value ==> reply_to_get(got)->Value_0 == got->Ok_0->0@,
        !(reply_to_get(got) is Done),
        reply_to_get(got) == ResponseView::Error(ErrorCode::KeyNotFound) <==> (got is Ok
            && got->Ok_0 is None) || (got is Err && got->Err_0 is KeyNotFound),
        reply_to_write(done) is Done <==> done is Ok,
        !(reply_to_write(done) is Value),
        reply_to_write(done) == ResponseView::Error(ErrorCode::KeyNotFound) <==> done is Err
            && done->Err_0 is KeyNotFound,
        reply_to_write(done) == ResponseView::Error(ErrorCode::InvalidRequest) <==> done is Err
            && done->Err_0 is InvalidData,
        reply_to_get(got) == ResponseView::Error(ErrorCode::InvalidRequest) <==> got is Err
            && got->Err_0 is InvalidData,
{
}

/// How a frame fails to be a request: by a type that is not known, and else as
/// invalid data, where a text is no text or a length does not fit.
pub proof fn law_bad_requests(msg_type: u8, payload: Seq<u8>)
    requires
        payload.len() <= usize::MAX,
    ensures
        msg_type > 2 <==> request_in(msg_type, payload) == Err::<RequestView, KvsErrorView>(
            KvsErrorView::UnexpectedCommandType,
        ),
        msg_type == 0 || msg_type == 2 ==> (request_in(msg_type, payload) is Ok <==> valid_utf8(
            payload,
        )),
        msg_type == 1 ==> {
            let k = payload[0] + 0x100 * payload[1] + 0x1_0000 * payload[2] + 0x100_0000
                * payload[3];
            request_in(msg_type, payload) is Ok <==> {
                &&& payload.len() >= 4
                &&& payload.len() >= 4 + k
                &&& valid_utf8(payload.subrange(4, 4 + k))
                &&& valid_utf8(payload.skip(4 + k))
            }
        },
        msg_type <= 2 && request_in(msg_type, payload) is Err ==> request_in(
            msg_type,
            payload,
        )->Err_0 is InvalidData,
{
    if payload.len() >= 4 {
        law_read_number(payload, 0);
    }
}

/// How a frame fails to be a response, and what a client makes of a server that
/// is gone.
pub proof fn law_bad_responses(msg_type: u8, payload: Seq<u8>)
    ensures
        msg_type > 2 ==> response_in(msg_type, payload) == Err::<ResponseView, KvsErrorView>(
            KvsErrorView::UnexpectedCommandType,
        ),
        msg_type == 1 && !valid_utf8(payload) ==> response_in(msg_type, payload) == Err::<
            ResponseView,
            KvsErrorView,
        >(KvsErrorView::Utf8(payload)),
        msg_type == 2 ==> (response_in(msg_type, payload) is Ok <==> payload.len() > 0 && 1
            <= payload[0] <= 3),
        msg_type == 2 && payload.len() == 0 ==> response_in(msg_type, payload)->Err_0
            is InvalidData,
        received(None) is Err,
        received(None)->Err_0 is Io,
        received(None)->Err_0->Io_0.kind == ErrorKind::UnexpectedEof,
        nothing_left().kind == ErrorKind::UnexpectedEof,
        too_large() is InvalidData,
{
}

} // verus!
