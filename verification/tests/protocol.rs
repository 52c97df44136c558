use kvs::config::Config;
use kvs::error::{ErrorKind, KvsError};
use kvs::kvstore::KvStore;
use kvs::network::protocol::{REQ_GET, REQ_PUT, REQ_RM, RESP_DONE, RESP_ERROR, RESP_VALUE};
use kvs::network::{
    answer, decode_request, decode_response, execute, read_frame, receive, write_frame,
    write_request, write_response, ErrorCode, FrameReader, FrameStep, Request, Response,
    MAX_PAYLOAD,
};

const HEADER_LEN: usize = 5;

fn frame(msg_type: u8, payload: &[u8]) -> Vec<u8> {
    let mut buf = Vec::new();
    write_frame(&mut buf, msg_type, payload).unwrap();
    buf
}

fn request_roundtrip(req: &Request) {
    let mut wire = Vec::new();
    write_request(&mut wire, req).unwrap();

    let mut cursor = &wire[..];
    let (msg_type, payload) = read_frame(&mut cursor).unwrap().unwrap();
    assert!(cursor.is_empty(), "frame not fully consumed");
    assert_eq!(&decode_request(msg_type, &payload).unwrap(), req);
}

fn response_roundtrip(resp: &Response) {
    let mut wire = Vec::new();
    write_response(&mut wire, resp).unwrap();

    let mut cursor = &wire[..];
    let (msg_type, payload) = read_frame(&mut cursor).unwrap().unwrap();
    assert!(cursor.is_empty(), "frame not fully consumed");
    assert_eq!(&decode_response(msg_type, &payload).unwrap(), resp);
}

fn assert_invalid_data<T: std::fmt::Debug>(r: Result<T, KvsError>) {
    match r {
        Err(KvsError::InvalidData(_)) => {}
        other => panic!("expected InvalidData, got {other:?}"),
    }
}

fn assert_eof<T: std::fmt::Debug>(r: Result<T, KvsError>) {
    match r {
        Err(KvsError::Io(e)) if e.kind() == ErrorKind::UnexpectedEof => {}
        other => panic!("expected Io(UnexpectedEof), got {other:?}"),
    }
}

// ---------- framing ----------

#[test]
fn frame_layout_is_type_then_le_len_then_payload() {
    let wire = frame(7, b"abc");
    assert_eq!(wire, [7, 3, 0, 0, 0, b'a', b'b', b'c']);
}

#[test]
fn empty_stream_is_clean_eof() {
    let mut cursor: &[u8] = &[];
    assert!(read_frame(&mut cursor).unwrap().is_none());
}

#[test]
fn empty_payload_frame_roundtrips() {
    let wire = frame(RESP_DONE, &[]);
    assert_eq!(wire.len(), HEADER_LEN);
    let (ty, payload) = read_frame(&mut &wire[..]).unwrap().unwrap();
    assert_eq!(ty, RESP_DONE);
    assert!(payload.is_empty());
}

#[test]
fn truncated_frame_is_eof_not_none() {
    let wire = frame(REQ_GET, b"key");
    // Every strict prefix except the empty one is a torn frame.
    for prefix_len in 1..wire.len() {
        assert_eof(read_frame(&mut &wire[..prefix_len]));
    }
}

#[test]
fn multiple_frames_are_read_in_order() {
    let mut wire = frame(1, b"first");
    wire.extend_from_slice(&frame(2, b""));
    wire.extend_from_slice(&frame(3, b"third"));

    let mut cursor = &wire[..];
    assert_eq!(
        read_frame(&mut cursor).unwrap(),
        Some((1, b"first".to_vec()))
    );
    assert_eq!(read_frame(&mut cursor).unwrap(), Some((2, Vec::new())));
    assert_eq!(
        read_frame(&mut cursor).unwrap(),
        Some((3, b"third".to_vec()))
    );
    assert_eq!(read_frame(&mut cursor).unwrap(), None);
}

#[test]
fn oversized_length_is_rejected_before_allocating() {
    let mut header = vec![REQ_GET];
    header.extend_from_slice(&(MAX_PAYLOAD + 1).to_le_bytes());
    assert_invalid_data(read_frame(&mut &header[..]));

    let mut header = vec![REQ_GET];
    header.extend_from_slice(&u32::MAX.to_le_bytes());
    assert_invalid_data(read_frame(&mut &header[..]));
}

// ---------- requests ----------

#[test]
fn request_roundtrip_all_variants() {
    request_roundtrip(&Request::Get { key: "key1" });
    request_roundtrip(&Request::Rm { key: "key2" });
    request_roundtrip(&Request::Put {
        key: "key3",
        value: "value3",
    });
}

#[test]
fn request_roundtrip_empty_and_unicode() {
    request_roundtrip(&Request::Get { key: "" });
    request_roundtrip(&Request::Put { key: "", value: "" });
    request_roundtrip(&Request::Put {
        key: "ключ",
        value: "значение 🚀",
    });
}

#[test]
fn set_payload_layout() {
    let mut wire = Vec::new();
    write_request(
        &mut wire,
        &Request::Put {
            key: "ab",
            value: "xyz",
        },
    )
    .unwrap();
    let payload = &wire[HEADER_LEN..];
    assert_eq!(payload, [2, 0, 0, 0, b'a', b'b', b'x', b'y', b'z']);
}

#[test]
fn set_with_value_containing_key_bytes_is_unambiguous() {
    // Value starts with the same bytes as the key; length prefix must win.
    request_roundtrip(&Request::Put {
        key: "aa",
        value: "aaaa",
    });
}

#[test]
fn unknown_request_type_is_rejected() {
    match decode_request(200, b"key") {
        Err(KvsError::UnexpectedCommandType) => {}
        other => panic!("expected UnexpectedCommandType, got {other:?}"),
    }
}

#[test]
fn invalid_utf8_key_is_rejected() {
    assert_invalid_data(decode_request(REQ_GET, &[0xff, 0xfe]));
    assert_invalid_data(decode_request(REQ_RM, &[0xff, 0xfe]));

    let mut payload = 1u32.to_le_bytes().to_vec();
    payload.extend_from_slice(&[0xff]); // key
    payload.extend_from_slice(b"ok"); // value
    assert_invalid_data(decode_request(REQ_PUT, &payload));

    let mut payload = 1u32.to_le_bytes().to_vec();
    payload.extend_from_slice(b"k");
    payload.extend_from_slice(&[0xff]); // value
    assert_invalid_data(decode_request(REQ_PUT, &payload));
}

#[test]
fn set_payload_shorter_than_length_prefix_is_rejected() {
    for len in 0..4 {
        assert_invalid_data(decode_request(REQ_PUT, &vec![0u8; len]));
    }
}

#[test]
fn set_key_len_exceeding_payload_is_rejected() {
    let mut payload = 10u32.to_le_bytes().to_vec();
    payload.extend_from_slice(b"short");
    assert_invalid_data(decode_request(REQ_PUT, &payload));

    let mut payload = u32::MAX.to_le_bytes().to_vec();
    payload.extend_from_slice(b"k");
    assert_invalid_data(decode_request(REQ_PUT, &payload));
}

// ---------- responses ----------

#[test]
fn response_roundtrip_all_variants() {
    response_roundtrip(&Response::Done);
    response_roundtrip(&Response::Value("value".into()));
    response_roundtrip(&Response::Value(String::new()));
    for code in [
        ErrorCode::KeyNotFound,
        ErrorCode::Internal,
        ErrorCode::InvalidRequest,
    ] {
        response_roundtrip(&Response::Error(code));
    }
}

#[test]
fn error_response_is_single_code_byte() {
    let mut wire = Vec::new();
    write_response(&mut wire, &Response::Error(ErrorCode::KeyNotFound)).unwrap();
    assert_eq!(&wire[HEADER_LEN..], &[ErrorCode::KeyNotFound.as_u8()]);
}

#[test]
fn unknown_response_type_is_rejected() {
    match decode_response(200, b"") {
        Err(KvsError::UnexpectedCommandType) => {}
        other => panic!("expected UnexpectedCommandType, got {other:?}"),
    }
}

#[test]
fn error_response_without_code_is_rejected() {
    assert_invalid_data(decode_response(RESP_ERROR, &[]));
}

#[test]
fn error_response_with_unknown_code_is_rejected() {
    assert!(decode_response(RESP_ERROR, &[0]).is_err());
    assert!(decode_response(RESP_ERROR, &[42]).is_err());
}

#[test]
fn value_response_must_be_utf8() {
    match decode_response(RESP_VALUE, &[0xff]) {
        Err(KvsError::Utf8(_)) => {}
        other => panic!("expected Utf8, got {other:?}"),
    }
}

// ---------- dispatch ----------

#[derive(Clone)]
struct FakeStore {
    map: std::sync::Arc<std::sync::Mutex<std::collections::HashMap<String, String>>>,
    fail_with: Option<fn() -> KvsError>,
}

impl FakeStore {
    fn new() -> Self {
        Self {
            map: Default::default(),
            fail_with: None,
        }
    }
}

impl KvStore for FakeStore {
    fn open(_: Config) -> Result<Self, KvsError> {
        Ok(Self::new())
    }
    fn set(&self, key: &str, value: &str) -> Result<(), KvsError> {
        if let Some(f) = self.fail_with {
            return Err(f());
        }
        self.map.lock().unwrap().insert(key.into(), value.into());
        Ok(())
    }
    fn remove(&self, key: &str) -> Result<(), KvsError> {
        if let Some(f) = self.fail_with {
            return Err(f());
        }
        self.map
            .lock()
            .unwrap()
            .remove(key)
            .map(|_| ())
            .ok_or(KvsError::KeyNotFound)
    }
    fn get(&self, key: &str) -> Result<Option<String>, KvsError> {
        if let Some(f) = self.fail_with {
            return Err(f());
        }
        Ok(self.map.lock().unwrap().get(key).cloned())
    }
}

#[test]
fn execute_maps_store_results_to_responses() {
    let store = FakeStore::new();

    assert_eq!(
        execute(&store, Request::Get { key: "k" }),
        Response::Error(ErrorCode::KeyNotFound)
    );
    assert_eq!(
        execute(&store, Request::Rm { key: "k" }),
        Response::Error(ErrorCode::KeyNotFound)
    );
    assert_eq!(
        execute(
            &store,
            Request::Put {
                key: "k",
                value: "v"
            }
        ),
        Response::Done
    );
    assert_eq!(
        execute(&store, Request::Get { key: "k" }),
        Response::Value("v".into())
    );
    assert_eq!(execute(&store, Request::Rm { key: "k" }), Response::Done);
    assert_eq!(
        execute(&store, Request::Get { key: "k" }),
        Response::Error(ErrorCode::KeyNotFound)
    );
}

#[test]
fn execute_maps_internal_store_errors_to_internal_code() {
    let mut store = FakeStore::new();
    store.fail_with = Some(|| KvsError::Corruption);
    assert_eq!(
        execute(&store, Request::Get { key: "k" }),
        Response::Error(ErrorCode::Internal)
    );

    store.fail_with = Some(|| KvsError::io(ErrorKind::Other, "disk on fire"));
    assert_eq!(
        execute(
            &store,
            Request::Put {
                key: "k",
                value: "v"
            }
        ),
        Response::Error(ErrorCode::Internal)
    );
}

#[test]
fn full_request_response_cycle_over_a_byte_stream() {
    let store = FakeStore::new();

    // Client side: three requests back to back on one connection.
    let mut inbound = Vec::new();
    write_request(
        &mut inbound,
        &Request::Put {
            key: "a",
            value: "1",
        },
    )
    .unwrap();
    write_request(&mut inbound, &Request::Get { key: "a" }).unwrap();
    write_request(&mut inbound, &Request::Get { key: "missing" }).unwrap();

    // Server side: the same loop as kvs-server::handle.
    let mut reader = &inbound[..];
    let mut outbound = Vec::new();
    while let Some((ty, payload)) = read_frame(&mut reader).unwrap() {
        let resp = match decode_request(ty, &payload) {
            Ok(req) => execute(&store, req),
            Err(_) => Response::Error(ErrorCode::InvalidRequest),
        };
        write_response(&mut outbound, &resp).unwrap();
    }

    // Client side: decode the replies in order.
    let mut reader = &outbound[..];
    let mut replies = Vec::new();
    while let Some((ty, payload)) = read_frame(&mut reader).unwrap() {
        replies.push(decode_response(ty, &payload).unwrap());
    }
    assert_eq!(
        replies,
        [
            Response::Done,
            Response::Value("1".into()),
            Response::Error(ErrorCode::KeyNotFound),
        ]
    );
}

// ---------- pieces of a stream ----------

#[test]
fn frames_are_put_together_from_pieces() {
    let wire = frame(REQ_GET, b"key");
    let mut reader = FrameReader::new();
    assert!(reader.end_of_stream().is_ok());
    let mut at = 0;
    let mut asked = Vec::new();
    loop {
        match reader.step() {
            FrameStep::Need(n) => {
                asked.push(n);
                reader.feed(&wire[at..at + n]);
                at += n;
                assert_eof(reader.end_of_stream());
            }
            FrameStep::Frame(msg_type, payload) => {
                assert_eq!((msg_type, payload), (REQ_GET, b"key".to_vec()));
                break;
            }
            FrameStep::Fail(e) => panic!("unexpected failure {e:?}"),
        }
    }
    assert_eq!(asked, [1, 4, 3]);
    assert_eq!(at, wire.len());
}

#[test]
fn oversized_frame_fails_behind_its_header() {
    let mut reader = FrameReader::new();
    reader.feed(&[REQ_GET]);
    reader.feed(&(MAX_PAYLOAD + 1).to_le_bytes());
    match reader.step() {
        FrameStep::Fail(KvsError::InvalidData(text)) => assert_eq!(text, "payload too large"),
        other => panic!("expected InvalidData, got {other:?}"),
    }
}

#[test]
fn longest_payload_is_read() {
    let payload = vec![b'x'; MAX_PAYLOAD as usize];
    let wire = frame(9, &payload);
    assert_eq!(read_frame(&mut &wire[..]).unwrap(), Some((9, payload)));
}

#[test]
fn messages_of_refused_frames() {
    let text = |r: Result<Request<'_>, KvsError>| match r {
        Err(KvsError::InvalidData(text)) => text,
        other => panic!("expected InvalidData, got {other:?}"),
    };
    assert_eq!(text(decode_request(REQ_PUT, b"abc")), "short set payload");
    assert_eq!(text(decode_request(REQ_GET, &[0xff])), "invalid utf-8");
    match decode_response(RESP_ERROR, b"") {
        Err(KvsError::InvalidData(text)) => assert_eq!(text, "missing error code"),
        other => panic!("expected InvalidData, got {other:?}"),
    }
    assert_eq!(
        decode_response(RESP_VALUE, &[b'a', 0xff]),
        Err(KvsError::Utf8(vec![b'a', 0xff]))
    );
}

// ---------- errors over the wire ----------

#[test]
fn codes_on_the_wire() {
    for (code, byte, text) in [
        (ErrorCode::KeyNotFound, 1, "Key not found"),
        (ErrorCode::Internal, 2, "Internal server error"),
        (ErrorCode::InvalidRequest, 3, "Invalid request"),
    ] {
        assert_eq!(code.as_u8(), byte);
        assert_eq!(ErrorCode::try_from(byte), Ok(code));
        assert_eq!(code.as_str(), text);
        assert_eq!(ErrorCode::from(&KvsError::from(code)), code);
    }
    assert_eq!(
        ErrorCode::try_from(0),
        Err(KvsError::UnexpectedCommandType)
    );
    assert_eq!(
        KvsError::from(ErrorCode::InvalidRequest),
        KvsError::InvalidData("rejected by server".to_owned())
    );
    assert_eq!(KvsError::from(ErrorCode::Internal), KvsError::ServerInternal);
    assert_eq!(
        ErrorCode::from(&KvsError::StoreLocked),
        ErrorCode::Internal
    );
}

#[test]
fn senseless_frames_are_answered() {
    let store = FakeStore::new();
    assert_eq!(
        answer(&store, 200, b""),
        Response::Error(ErrorCode::InvalidRequest)
    );
    assert_eq!(
        answer(&store, REQ_RM, b"k"),
        Response::Error(ErrorCode::KeyNotFound)
    );
    let mut payload = 1u32.to_le_bytes().to_vec();
    payload.extend_from_slice(b"kv");
    assert_eq!(answer(&store, REQ_PUT, &payload), Response::Done);
    assert_eq!(answer(&store, REQ_GET, b"k"), Response::Value("v".into()));
}

#[test]
fn client_turns_told_errors_into_errors() {
    assert_eq!(
        receive(None),
        Err(KvsError::io(
            ErrorKind::UnexpectedEof,
            "server closed the connection"
        ))
    );
    assert_eq!(receive(Some((RESP_DONE, Vec::new()))), Ok(Response::Done));
    assert_eq!(
        receive(Some((RESP_VALUE, b"v".to_vec()))),
        Ok(Response::Value("v".into()))
    );
    assert_eq!(
        receive(Some((RESP_ERROR, vec![1]))),
        Err(KvsError::KeyNotFound)
    );
    assert_eq!(
        receive(Some((RESP_ERROR, vec![2]))),
        Err(KvsError::ServerInternal)
    );
    assert_eq!(
        receive(Some((9, Vec::new()))),
        Err(KvsError::UnexpectedCommandType)
    );
}
