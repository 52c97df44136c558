use kvs::command::{Command, CommandType, CRC_LEN, HEADER_LEN};
use kvs::error::{ErrorKind, KvsError};

fn sample_set() -> Vec<u8> {
    Command::Put {
        ts: 42,
        key: b"key1",
        value: b"value1",
    }
    .serialize()
}

fn raw_record(body: &[u8]) -> Vec<u8> {
    let mut buf = Vec::with_capacity(HEADER_LEN + body.len());
    buf.extend_from_slice(&[0u8; CRC_LEN]);
    buf.extend_from_slice(&(body.len() as u32).to_le_bytes());
    buf.extend_from_slice(body);
    let crc = crc32fast::hash(&buf[CRC_LEN..]);
    buf[..CRC_LEN].copy_from_slice(&crc.to_le_bytes());
    buf
}

fn assert_corruption(bytes: &[u8]) {
    match Command::deserialize(bytes) {
        Err(KvsError::Corruption) => {}
        other => panic!("expected Corruption, got {other:?}"),
    }
}

fn assert_eof(bytes: &[u8]) {
    match Command::deserialize(bytes) {
        Err(KvsError::Io(e)) if e.kind() == ErrorKind::UnexpectedEof => {}
        other => panic!("expected Io(UnexpectedEof), got {other:?}"),
    }
}

#[test]
fn command_serde_roundtrip() {
    let set = Command::Put {
        ts: 42,
        key: b"key1",
        value: b"value1",
    };
    let set_bytes = set.serialize();
    let (set_decoded, set_used) = Command::deserialize(&set_bytes).unwrap();
    assert_eq!(set_decoded, set);
    assert_eq!(set_used, set_bytes.len());

    let rm = Command::Rm {
        ts: 43,
        key: b"key2",
    };
    let rm_bytes = rm.serialize();
    let (rm_decoded, rm_used) = Command::deserialize(&rm_bytes).unwrap();
    assert_eq!(rm_decoded, rm);
    assert_eq!(rm_used, rm_bytes.len());
}

#[test]
fn roundtrip_timestamp_extremes() {
    for ts in [0, 1, u64::MAX] {
        let cmd = Command::Put {
            ts,
            key: b"k",
            value: b"v",
        };
        let bytes = cmd.serialize();
        let (decoded, _) = Command::deserialize(&bytes).unwrap();
        assert_eq!(decoded, cmd);
    }
}

#[test]
fn roundtrip_empty_key_and_value() {
    let set = Command::Put {
        ts: 1,
        key: b"",
        value: b"",
    };
    let bytes = set.serialize();
    let (decoded, used) = Command::deserialize(&bytes).unwrap();
    assert_eq!(decoded, set);
    assert_eq!(used, bytes.len());

    let rm = Command::Rm { ts: 2, key: b"" };
    let bytes = rm.serialize();
    let (decoded, used) = Command::deserialize(&bytes).unwrap();
    assert_eq!(decoded, rm);
    assert_eq!(used, bytes.len());
}

#[test]
fn command_deserialize_consumes_exactly_one_record() {
    let first = Command::Put {
        ts: 1,
        key: b"key1",
        value: b"value1",
    };
    let second = Command::Rm {
        ts: 2,
        key: b"key1",
    };

    let mut buf = first.serialize();
    let first_len = buf.len();
    buf.extend_from_slice(&second.serialize());

    let (decoded, used) = Command::deserialize(&buf).unwrap();
    assert_eq!(decoded, first);
    assert_eq!(used, first_len);

    let (decoded, used) = Command::deserialize(&buf[first_len..]).unwrap();
    assert_eq!(decoded, second);
    assert_eq!(first_len + used, buf.len());
}

#[test]
fn command_every_single_bit_flip_is_rejected() {
    let bytes = sample_set();
    for byte_idx in 0..bytes.len() {
        for bit in 0..8 {
            let mut corrupted = bytes.clone();
            corrupted[byte_idx] ^= 1 << bit;
            assert!(
                Command::deserialize(&corrupted).is_err(),
                "flip of bit {bit} in byte {byte_idx} was accepted"
            );
        }
    }
}

#[test]
fn corrupted_crc_field_is_corruption() {
    let mut bytes = sample_set();
    bytes[0] ^= 0xFF;
    assert_corruption(&bytes);
}

#[test]
fn corrupted_body_is_corruption() {
    let mut bytes = sample_set();
    let last = bytes.len() - 1;
    bytes[last] ^= 0x01;
    assert_corruption(&bytes);

    let mut bytes = sample_set();
    bytes[HEADER_LEN] ^= 0x01;
    assert_corruption(&bytes);
}

#[test]
fn command_truncated_buffer_is_eof_not_corruption() {
    let bytes = sample_set();
    for prefix_len in 0..bytes.len() {
        assert_eof(&bytes[..prefix_len]);
    }
}

#[test]
fn oversized_body_len_is_eof() {
    let mut bytes = sample_set();
    bytes[CRC_LEN..HEADER_LEN].copy_from_slice(&u32::MAX.to_le_bytes());
    assert_eof(&bytes);
}

#[test]
fn unknown_command_type_with_valid_crc_is_rejected() {
    let mut body = Vec::new();
    body.extend_from_slice(&42u64.to_le_bytes());
    body.push(7);
    body.extend_from_slice(&1u32.to_le_bytes());
    body.extend_from_slice(b"k");

    let bytes = raw_record(&body);
    match Command::deserialize(&bytes) {
        Err(KvsError::UnexpectedCommandType) => {}
        other => panic!("expected UnexpectedCommandType, got {other:?}"),
    }
}

#[test]
fn valid_crc_but_inconsistent_inner_lengths_is_corruption() {
    let mut body = Vec::new();
    body.extend_from_slice(&42u64.to_le_bytes());
    body.push(1);
    body.extend_from_slice(&1u32.to_le_bytes());
    body.extend_from_slice(b"ab");

    assert_corruption(&raw_record(&body));
}

#[test]
fn record_layout() {
    let mut expected = Vec::new();
    expected.extend_from_slice(&23u32.to_le_bytes());
    expected.extend_from_slice(&5u64.to_le_bytes());
    expected.push(0);
    expected.extend_from_slice(&2u32.to_le_bytes());
    expected.extend_from_slice(b"ab");
    expected.extend_from_slice(&4u32.to_le_bytes());
    expected.extend_from_slice(b"wxyz");
    let command = Command::Put {
        ts: 5,
        key: b"ab",
        value: b"wxyz",
    };
    let bytes = command.serialize();
    assert_eq!(bytes[CRC_LEN..], expected);
    assert_eq!(bytes[..CRC_LEN], crc32fast::hash(&expected).to_le_bytes());
    assert_eq!(command.covered(), expected);
    assert_eq!(command.encoded_body_len(), 23);
    assert_eq!(Command::body_len(&bytes), 23);

    let rm = Command::Rm { ts: 5, key: b"ab" };
    assert_eq!(rm.encoded_body_len(), 15);
    assert_eq!(rm.serialize().len(), 23);
}

#[test]
fn parts_of_a_command() {
    let put = Command::Put {
        ts: 5,
        key: b"ab",
        value: b"wxyz",
    };
    assert_eq!(put.get_key(), b"ab");
    assert_eq!(put.get_value(), Some(&b"wxyz"[..]));
    assert_eq!(put.get_timestamp(), 5);
    let rm = Command::Rm { ts: 6, key: b"c" };
    assert_eq!(rm.get_key(), b"c");
    assert_eq!(rm.get_value(), None);
    assert_eq!(rm.get_timestamp(), 6);
}

#[test]
fn type_bytes() {
    assert_eq!(Command::get_command_type(0), Ok(CommandType::Put));
    assert_eq!(Command::get_command_type(1), Ok(CommandType::Rm));
    assert_eq!(
        Command::get_command_type(2),
        Err(KvsError::UnexpectedCommandType)
    );
}

#[test]
fn checksum_decides_before_the_fields_do() {
    let mut bytes = sample_set();
    let crc = u32::from_le_bytes([bytes[0], bytes[1], bytes[2], bytes[3]]);
    assert!(Command::deserialize_checked(&bytes, crc).is_ok());
    assert_eq!(
        Command::deserialize_checked(&bytes, crc ^ 1),
        Err(KvsError::Corruption)
    );
    bytes[16] = 9;
    assert_eq!(
        Command::deserialize_checked(&bytes, crc ^ 1),
        Err(KvsError::Corruption)
    );
    assert_eq!(
        Command::deserialize_checked(&bytes, crc),
        Err(KvsError::UnexpectedCommandType)
    );
}

// A whole record is judged by its own bytes: inner lengths that run past its
// end are corruption, whether something stands behind it or not.
#[test]
fn inner_length_past_the_record_is_corruption() {
    for key_len in [3u32, 5, 100, u32::MAX] {
        let mut body = Vec::new();
        body.extend_from_slice(&42u64.to_le_bytes());
        body.push(1);
        body.extend_from_slice(&key_len.to_le_bytes());
        body.extend_from_slice(b"ab");
        let mut record = raw_record(&body);
        assert_corruption(&record);
        record.extend_from_slice(&[0u8; 3]);
        assert_corruption(&record);
    }

    let mut body = Vec::new();
    body.extend_from_slice(&42u64.to_le_bytes());
    body.push(0);
    body.extend_from_slice(&2u32.to_le_bytes());
    body.extend_from_slice(b"ab");
    let mut short = body.clone();
    short.extend_from_slice(&[0u8; 2]);
    assert_corruption(&raw_record(&short));
    body.extend_from_slice(&9u32.to_le_bytes());
    body.extend_from_slice(b"wxyz");
    assert_corruption(&raw_record(&body));

    // bodies that end inside the timestamp, or in front of the type
    assert_corruption(&raw_record(b""));
    assert_corruption(&raw_record(b"1234567"));
    assert_corruption(&raw_record(b"12345678"));
}

#[test]
fn any_changed_byte_is_refused() {
    let mut bytes = sample_set();
    let end = bytes.len();
    bytes.extend_from_slice(&sample_set());
    for i in 0..end {
        for delta in 1..=255u8 {
            let mut changed = bytes.clone();
            changed[i] ^= delta;
            let res = Command::deserialize(&changed);
            assert!(res.is_err());
            if !(CRC_LEN..HEADER_LEN).contains(&i) {
                assert_eq!(res, Err(KvsError::Corruption));
            }
        }
    }
}

// The remainder bit by bit, as the contract of the checksum has it.
fn crc_by_bits(bytes: &[u8]) -> u32 {
    let mut c = 0xffff_ffffu32;
    for byte in bytes {
        c ^= u32::from(*byte);
        for _ in 0..8 {
            c = if c & 1 == 1 {
                (c >> 1) ^ 0xedb8_8320
            } else {
                c >> 1
            };
        }
    }
    c ^ 0xffff_ffff
}

#[test]
fn checksum_is_crc_32() {
    assert_eq!(crc_by_bits(b"123456789"), 0xcbf4_3926);
    assert_eq!(crc32fast::hash(b"123456789"), 0xcbf4_3926);
    assert_eq!(crc32fast::hash(b""), 0);
    let long: Vec<u8> = (0..1000u32).map(|i| (i * i % 251) as u8).collect();
    for n in 0..long.len() {
        assert_eq!(crc32fast::hash(&long[..n]), crc_by_bits(&long[..n]));
    }
    let bytes = sample_set();
    assert_eq!(
        bytes[..CRC_LEN],
        crc_by_bits(&bytes[CRC_LEN..]).to_le_bytes()
    );
}

#[test]
fn messages_of_incomplete_commands() {
    let bytes = sample_set();
    for (n, text) in [(3, "unexpected end of buffer"), (9, "incomplete command")] {
        match Command::deserialize(&bytes[..n]) {
            Err(KvsError::Io(e)) => assert_eq!(e.message, text),
            other => panic!("expected Io, got {other:?}"),
        }
    }
}
