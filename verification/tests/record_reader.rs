use kvs::command::{Command, HEADER_LEN};
use kvs::error::KvsError;
use kvs::record_reader::{RecordRead, RecordReader};

fn record(key: &[u8], value: &[u8]) -> Vec<u8> {
    Command::Put { ts: 1, key, value }.serialize()
}

fn expect_record(read: RecordRead) -> (u64, Vec<u8>) {
    match read {
        RecordRead::Record { position, bytes } => (position, bytes),
        other => panic!("expected Record, got {other:?}"),
    }
}

#[test]
fn yields_records_then_clean_eof() -> Result<(), KvsError> {
    let first = record(b"alpha", b"beta");
    let second = record(b"gamma", b"delta");
    let mut buf = first.clone();
    buf.extend_from_slice(&second);

    let mut reader = RecordReader::new(&buf, buf.len() as u64);

    let (position, bytes) = expect_record(reader.next_record()?);
    assert_eq!(position, 0);
    assert_eq!(bytes, first);

    let (position, bytes) = expect_record(reader.next_record()?);
    assert_eq!(position, first.len() as u64);
    assert_eq!(bytes, second);

    assert!(matches!(reader.next_record()?, RecordRead::CleanEof));
    // CleanEof is stable: asking again must not turn into TornTail
    assert!(matches!(reader.next_record()?, RecordRead::CleanEof));

    Ok(())
}

#[test]
fn partial_header_at_tail_is_torn() -> Result<(), KvsError> {
    let first = record(b"alpha", b"beta");
    let mut buf = first.clone();
    buf.extend_from_slice(&[0xAA, 0xBB, 0xCC]);

    let mut reader = RecordReader::new(&buf, buf.len() as u64);

    expect_record(reader.next_record()?);
    match reader.next_record()? {
        RecordRead::TornTail { position } => assert_eq!(position, first.len() as u64),
        other => panic!("expected TornTail, got {other:?}"),
    }

    Ok(())
}

#[test]
fn oversized_body_len_is_torn_tail() -> Result<(), KvsError> {
    let mut buf = vec![0u8; HEADER_LEN];
    buf[4..8].copy_from_slice(&u32::MAX.to_le_bytes());

    let mut reader = RecordReader::new(&buf, buf.len() as u64);

    assert!(matches!(
        reader.next_record()?,
        RecordRead::TornTail { position: 0 }
    ));

    Ok(())
}

// file_len can lie (e.g. the file shrank between metadata() and the read):
// a body that ends early must surface as TornTail, never a panic.
#[test]
fn body_shorter_than_file_len_claims_is_torn() -> Result<(), KvsError> {
    let full = record(b"alpha", b"beta");
    let truncated = &full[..HEADER_LEN + 2];

    let mut reader = RecordReader::new(truncated, full.len() as u64);

    assert!(matches!(
        reader.next_record()?,
        RecordRead::TornTail { position: 0 }
    ));

    Ok(())
}

#[test]
fn empty_file_is_clean_eof() -> Result<(), KvsError> {
    let mut reader = RecordReader::new(&[], 0);
    assert!(matches!(reader.next_record()?, RecordRead::CleanEof));
    Ok(())
}
