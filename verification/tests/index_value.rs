use kvs::error::{ErrorKind, KvsError};
use kvs::index_value::{IndexValue, CRC_LEN, HEADER_LEN};

fn sample() -> (Vec<u8>, IndexValue) {
    let iv = IndexValue {
        file_id: 7,
        ts: 99,
        offset: 4096,
        len: 123,
    };
    (iv.serialize(b"key1"), iv)
}

fn assert_corruption(bytes: &[u8]) {
    match IndexValue::deserialize(bytes, 0) {
        Err(KvsError::Corruption) => {}
        other => panic!("expected Corruption, got {other:?}"),
    }
}

fn assert_eof(bytes: &[u8]) {
    match IndexValue::deserialize(bytes, 0) {
        Err(KvsError::Io(e)) if e.kind() == ErrorKind::UnexpectedEof => {}
        other => panic!("expected Io(UnexpectedEof), got {other:?}"),
    }
}

#[test]
fn roundtrip() {
    let (bytes, iv) = sample();
    let (key, decoded, used) = IndexValue::deserialize(&bytes, iv.file_id).unwrap();
    assert_eq!(key, b"key1");
    assert_eq!(decoded, iv);
    assert_eq!(used, bytes.len());
}

#[test]
fn file_id_comes_from_the_caller_not_the_record() {
    let (bytes, iv) = sample();
    let (_, decoded, _) = IndexValue::deserialize(&bytes, 42).unwrap();
    assert_eq!(decoded.file_id, 42);
    assert_eq!(decoded.ts, iv.ts);
    assert_eq!(decoded.offset, iv.offset);
    assert_eq!(decoded.len, iv.len);
}

#[test]
fn roundtrip_empty_key_and_extreme_values() {
    let iv = IndexValue {
        file_id: u64::MAX,
        ts: u64::MAX,
        offset: u64::MAX,
        len: usize::MAX,
    };
    let bytes = iv.serialize(b"");
    let (key, decoded, used) = IndexValue::deserialize(&bytes, iv.file_id).unwrap();
    assert_eq!(key, b"");
    assert_eq!(decoded, iv);
    assert_eq!(used, bytes.len());
}

#[test]
fn index_value_deserialize_consumes_exactly_one_record() {
    let first = IndexValue {
        file_id: 1,
        ts: 10,
        offset: 0,
        len: 10,
    };
    let second = IndexValue {
        file_id: 1,
        ts: 20,
        offset: 100,
        len: 20,
    };
    let mut buf = first.serialize(b"alpha");
    let first_len = buf.len();
    buf.extend_from_slice(&second.serialize(b"beta"));

    let (key, decoded, used) = IndexValue::deserialize(&buf, 1).unwrap();
    assert_eq!(key, b"alpha");
    assert_eq!(decoded, first);
    assert_eq!(used, first_len);

    let (key, decoded, used) = IndexValue::deserialize(&buf[first_len..], 1).unwrap();
    assert_eq!(key, b"beta");
    assert_eq!(decoded, second);
    assert_eq!(first_len + used, buf.len());
}

#[test]
fn index_value_every_single_bit_flip_is_rejected() {
    let (bytes, _) = sample();
    for byte_idx in 0..bytes.len() {
        for bit in 0..8 {
            let mut corrupted = bytes.clone();
            corrupted[byte_idx] ^= 1 << bit;
            assert!(
                IndexValue::deserialize(&corrupted, 0).is_err(),
                "flip of bit {bit} in byte {byte_idx} was accepted"
            );
        }
    }
}

#[test]
fn corrupted_crc_is_corruption() {
    let (mut bytes, _) = sample();
    bytes[0] ^= 0xFF;
    assert_corruption(&bytes);
}

#[test]
fn index_value_truncated_buffer_is_eof_not_corruption() {
    let (bytes, _) = sample();
    for prefix_len in 0..bytes.len() {
        assert_eof(&bytes[..prefix_len]);
    }
}

#[test]
fn valid_crc_but_inconsistent_key_len_is_corruption() {
    let (mut bytes, _) = sample();

    let key_len_pos = HEADER_LEN;
    let key_len = u32::from_le_bytes(bytes[key_len_pos..key_len_pos + 4].try_into().unwrap());
    bytes[key_len_pos..key_len_pos + 4].copy_from_slice(&(key_len - 1).to_le_bytes());

    let crc = crc32fast::hash(&bytes[CRC_LEN..]);
    bytes[..CRC_LEN].copy_from_slice(&crc.to_le_bytes());

    assert_corruption(&bytes);
}

// A whole hint is judged by its own bytes.
#[test]
fn key_len_past_the_hint_is_corruption() {
    let (sound, _) = sample();
    for key_len in [5u32, 29, 100, u32::MAX] {
        let mut bytes = sound.clone();
        bytes[HEADER_LEN..HEADER_LEN + 4].copy_from_slice(&key_len.to_le_bytes());
        let crc = crc32fast::hash(&bytes[CRC_LEN..]);
        bytes[..CRC_LEN].copy_from_slice(&crc.to_le_bytes());
        assert_corruption(&bytes);
        bytes.extend_from_slice(&[0u8; 40]);
        assert_corruption(&bytes);
    }
}

#[test]
fn any_changed_byte_of_a_hint_is_refused() {
    let (mut bytes, _) = sample();
    let end = bytes.len();
    bytes.extend_from_slice(&sample().0);
    for i in 0..end {
        for delta in 1..=255u8 {
            let mut changed = bytes.clone();
            changed[i] ^= delta;
            assert!(IndexValue::deserialize(&changed, 0).is_err());
        }
    }
}

#[test]
fn hint_layout() {
    let (bytes, iv) = sample();
    let mut expected = Vec::new();
    expected.extend_from_slice(&32u32.to_le_bytes());
    expected.extend_from_slice(&4u32.to_le_bytes());
    expected.extend_from_slice(b"key1");
    expected.extend_from_slice(&99u64.to_le_bytes());
    expected.extend_from_slice(&4096u64.to_le_bytes());
    expected.extend_from_slice(&123u64.to_le_bytes());
    assert_eq!(bytes[CRC_LEN..], expected);
    assert_eq!(bytes[..CRC_LEN], crc32fast::hash(&expected).to_le_bytes());
    assert_eq!(iv.covered(b"key1"), expected);
}

#[test]
fn hint_checksum_decides() {
    let (bytes, iv) = sample();
    let crc = u32::from_le_bytes([bytes[0], bytes[1], bytes[2], bytes[3]]);
    let (key, decoded, used) = IndexValue::deserialize_checked(&bytes, 7, crc).unwrap();
    assert_eq!((key, decoded, used), (&b"key1"[..], iv, bytes.len()));
    assert_eq!(
        IndexValue::deserialize_checked(&bytes, 7, crc ^ 1),
        Err(KvsError::Corruption)
    );
}

#[test]
fn messages_of_incomplete_hints() {
    let (bytes, _) = sample();
    for (n, text) in [(3, "unexpected end of buffer"), (9, "incomplete index value")] {
        match IndexValue::deserialize(&bytes[..n], 0) {
            Err(KvsError::Io(e)) => assert_eq!(e.message, text),
            other => panic!("expected Io, got {other:?}"),
        }
    }
}
