use kvs::bytes_util::{push_u32, push_u64, same_bytes, BytesUtil};
use kvs::error::ErrorKind;

#[test]
fn reads_advance_cursor_in_order() {
    let mut buf = Vec::new();
    buf.push(7u8);
    buf.extend_from_slice(&0xDEAD_BEEFu32.to_le_bytes());
    buf.extend_from_slice(&0x1122_3344_5566_7788u64.to_le_bytes());
    buf.extend_from_slice(b"tail");

    let mut cursor = 0;
    assert_eq!(BytesUtil::read_u8(&buf, &mut cursor).unwrap(), 7);
    assert_eq!(BytesUtil::read_u32(&buf, &mut cursor).unwrap(), 0xDEAD_BEEF);
    assert_eq!(
        BytesUtil::read_u64(&buf, &mut cursor).unwrap(),
        0x1122_3344_5566_7788
    );
    assert_eq!(BytesUtil::read_bytes(&buf, &mut cursor, 4).unwrap(), b"tail");
    assert_eq!(cursor, buf.len());
}

#[test]
fn values_are_little_endian() {
    let buf = [0x01, 0x02, 0x03, 0x04, 0x05, 0x06, 0x07, 0x08];

    let mut cursor = 0;
    assert_eq!(BytesUtil::read_u32(&buf, &mut cursor).unwrap(), 0x0403_0201);

    let mut cursor = 0;
    assert_eq!(
        BytesUtil::read_u64(&buf, &mut cursor).unwrap(),
        0x0807_0605_0403_0201
    );
}

#[test]
fn short_buffer_is_eof_and_cursor_is_untouched() {
    let buf = [0u8; 3];

    let mut cursor = 0;
    let err = BytesUtil::read_u32(&buf, &mut cursor).unwrap_err();
    assert_eq!(err.kind(), ErrorKind::UnexpectedEof);
    assert_eq!(cursor, 0);

    let err = BytesUtil::read_u64(&buf, &mut cursor).unwrap_err();
    assert_eq!(err.kind(), ErrorKind::UnexpectedEof);
    assert_eq!(cursor, 0);

    let err = BytesUtil::read_bytes(&buf, &mut cursor, 4).unwrap_err();
    assert_eq!(err.kind(), ErrorKind::UnexpectedEof);
    assert_eq!(cursor, 0);

    let mut cursor = buf.len();
    let err = BytesUtil::read_u8(&buf, &mut cursor).unwrap_err();
    assert_eq!(err.kind(), ErrorKind::UnexpectedEof);
    assert_eq!(cursor, buf.len());
}

#[test]
fn zero_length_read_bytes_is_empty() {
    let buf = [1u8, 2];
    let mut cursor = 1;
    assert_eq!(BytesUtil::read_bytes(&buf, &mut cursor, 0).unwrap(), b"");
    assert_eq!(cursor, 1);
}

#[test]
fn overflowing_cursor_is_invalid_data_not_panic() {
    let buf = [0u8; 8];

    let mut cursor = usize::MAX;
    let err = BytesUtil::read_u32(&buf, &mut cursor).unwrap_err();
    assert_eq!(err.kind(), ErrorKind::InvalidData);

    let mut cursor = usize::MAX;
    let err = BytesUtil::read_u64(&buf, &mut cursor).unwrap_err();
    assert_eq!(err.kind(), ErrorKind::InvalidData);

    let mut cursor = 1;
    let err = BytesUtil::read_bytes(&buf, &mut cursor, usize::MAX).unwrap_err();
    assert_eq!(err.kind(), ErrorKind::InvalidData);
}

#[test]
fn numbers_are_written_as_they_are_read() {
    for x in [0u32, 1, 0xff, 0x100, 0xdead_beef, u32::MAX] {
        let mut buf = vec![9u8];
        push_u32(&mut buf, x);
        assert_eq!(buf[1..], x.to_le_bytes());
        assert_eq!(BytesUtil::read_u32(&buf, &mut 1).unwrap(), x);
    }
    for x in [0u64, 1, 0x1_0000_0000, 0x0102_0304_0506_0708, u64::MAX] {
        let mut buf = vec![9u8];
        push_u64(&mut buf, x);
        assert_eq!(buf[1..], x.to_le_bytes());
        assert_eq!(BytesUtil::read_u64(&buf, &mut 1).unwrap(), x);
    }
}

#[test]
fn messages_of_failed_reads() {
    let buf = [0u8; 2];
    assert_eq!(
        BytesUtil::read_u32(&buf, &mut 0).unwrap_err().message,
        "unexpected end of buffer"
    );
    assert_eq!(
        BytesUtil::read_u64(&buf, &mut { usize::MAX }).unwrap_err().message,
        "cursor overflow"
    );
    assert_eq!(
        BytesUtil::read_bytes(&buf, &mut 1, usize::MAX).unwrap_err().message,
        "length overflow"
    );
}

#[test]
fn byte_runs_are_compared_whole() {
    assert!(same_bytes(b"", b""));
    assert!(same_bytes(b"abc", b"abc"));
    assert!(!same_bytes(b"abc", b"abd"));
    assert!(!same_bytes(b"abc", b"ab"));
}
