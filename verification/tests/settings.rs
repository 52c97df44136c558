use std::path::PathBuf;

use kvs::config::Config;
use kvs::error::{ErrorKind, IoError, KvsError};
use kvs::file_name::{
    data_file_name, data_file_name_compaction, file_kind, get_file_id, hint_file_name, note_file,
    parse_id, pick_active, stays, strip_suffix, FileKind,
};
use kvs::kvstore::StoreType;
use kvs::lock_file::{check_marker, MarkerAction, LOCK_FILE_NAME};
use kvs::policy::DurabilityPolicy;
use kvs::sled_store::{
    error_for, flush_every_ms, get_outcome, remove_outcome, sync_every_put, SledFailure,
};

#[test]
fn default_settings() {
    let config = Config::new("some/dir", StoreType::Sled);
    assert_eq!(config.dir, PathBuf::from("some/dir"));
    assert_eq!(config.durability_policy, DurabilityPolicy::OsDecides);
    assert_eq!(config.file_size_threshold, 1 << 20);
    assert_eq!(config.compaction_threshold, 1 << 20);
    assert_eq!(config.flush_threshold_millis, 1000);
    assert_eq!(config.store_type, StoreType::Sled);
    assert_eq!(StoreType::Bitcask.as_str(), "bitcask");
    assert_eq!(StoreType::Sled.as_str(), "sled");
}

// The marker of a lock file decides who may open the store.
#[test]
fn fresh_lock_file_is_stamped_and_reopens_for_same_engine() {
    assert_eq!(LOCK_FILE_NAME, "kvs.lock");
    let mut marker = String::new();
    if let Ok(MarkerAction::Stamp) = check_marker(&marker, StoreType::Sled) {
        marker.push_str(StoreType::Sled.as_str());
    }
    assert_eq!(marker, "sled");
    assert_eq!(
        check_marker(&marker, StoreType::Sled),
        Ok(MarkerAction::Keep)
    );
}

#[test]
fn other_engine_is_refused() {
    let marker = StoreType::Bitcask.as_str();
    assert!(matches!(
        check_marker(marker, StoreType::Sled),
        Err(KvsError::EngineMismatch { found, requested })
            if found == "bitcask" && requested == "sled"
    ));
}

#[test]
fn garbage_marker_is_refused_not_overwritten() {
    assert!(matches!(
        check_marker("rocksdb\n", StoreType::Bitcask),
        Err(KvsError::EngineMismatch { found, .. }) if found == "rocksdb"
    ));
}

#[test]
fn blank_markers_and_white_space() {
    assert_eq!(
        check_marker(" \n", StoreType::Bitcask),
        Ok(MarkerAction::Stamp)
    );
    assert_eq!(
        check_marker("\tbitcask \n", StoreType::Bitcask),
        Ok(MarkerAction::Keep)
    );
}

#[test]
fn names_of_files() {
    assert_eq!(data_file_name(1), "000001.data");
    assert_eq!(hint_file_name(42), "000042.hint");
    assert_eq!(data_file_name_compaction(7), "000007.data.compact");
    assert_eq!(data_file_name(0), "000000.data");
    assert_eq!(data_file_name(123456), "123456.data");
    assert_eq!(data_file_name(1234567), "1234567.data");
    assert_eq!(data_file_name(u64::MAX), format!("{:06}.data", u64::MAX));
}

#[test]
fn ids_are_read_back_from_names() {
    for id in [0, 1, 9, 10, 999_999, 1_000_000, u64::MAX] {
        assert_eq!(get_file_id(&data_file_name(id)), Some(id));
        assert_eq!(file_kind(&data_file_name(id)), FileKind::Data(id));
        assert_eq!(file_kind(&hint_file_name(id)), FileKind::Hint(id));
        assert_eq!(
            file_kind(&data_file_name_compaction(id)),
            FileKind::Leftover
        );
    }
}

#[test]
fn numbers_are_parsed_like_the_standard_library_does() {
    for s in [
        "", "+", "-", "-0", "0", "+0", "007", "+7", "++7", "1 ", " 1", "12a", "a12",
        "18446744073709551615", "18446744073709551616", "99999999999999999999999", "٣",
    ] {
        assert_eq!(parse_id(s), s.parse::<u64>().ok(), "{s:?}");
    }
}

#[test]
fn foreign_names() {
    assert_eq!(file_kind("notes.txt"), FileKind::Foreign);
    assert_eq!(file_kind("abc.hint"), FileKind::Foreign);
    assert_eq!(file_kind("abc.data"), FileKind::Foreign);
    assert_eq!(file_kind(".data"), FileKind::Foreign);
    assert_eq!(file_kind("abc.data.compact"), FileKind::Leftover);
    assert_eq!(file_kind("kvs.lock"), FileKind::Foreign);
    assert_eq!(strip_suffix("000001.data", ".data"), Some("000001"));
    assert_eq!(strip_suffix("data", ".data"), None);
}

#[test]
fn files_that_stay() {
    assert!(stays(FileKind::Data(1), false));
    assert!(stays(FileKind::Foreign, false));
    assert!(!stays(FileKind::Leftover, true));
    assert!(stays(FileKind::Hint(1), true));
    assert!(!stays(FileKind::Hint(1), false));
}

#[test]
fn highest_file_is_active() {
    let mut readers = Vec::new();
    for name in ["000002.data", "000010.data", "000010.hint", "000001.data", "x"] {
        note_file(&mut readers, file_kind(name));
    }
    assert_eq!(readers, [1, 2, 10]);
    assert_eq!(pick_active(&mut readers), 10);
    assert_eq!(readers, [1, 2, 10]);

    let mut none = Vec::new();
    assert_eq!(pick_active(&mut none), 1);
    assert_eq!(none, [1]);
}

#[test]
fn sled_decisions() {
    let mut config = Config::new("d", StoreType::Sled);
    assert_eq!(flush_every_ms(&config), None);
    assert!(!sync_every_put(&config));
    config.durability_policy = DurabilityPolicy::SyncOnInterval;
    assert_eq!(flush_every_ms(&config), Some(1000));
    config.durability_policy = DurabilityPolicy::SyncOnEveryPut;
    assert_eq!(flush_every_ms(&config), None);
    assert!(sync_every_put(&config));

    assert_eq!(remove_outcome(true, true), Ok(true));
    assert_eq!(remove_outcome(true, false), Ok(false));
    assert_eq!(remove_outcome(false, true), Err(KvsError::KeyNotFound));
    assert_eq!(get_outcome(None), Ok(None));
    assert_eq!(get_outcome(Some(b"v".to_vec())), Ok(Some("v".to_owned())));
    assert_eq!(get_outcome(Some(vec![0xff])), Err(KvsError::Utf8(vec![0xff])));

    let io = IoError::new(ErrorKind::Other, "disk on fire");
    assert_eq!(
        error_for(SledFailure::Io(io.clone())),
        KvsError::Io(io)
    );
    assert_eq!(error_for(SledFailure::Corruption), KvsError::Corruption);
    assert_eq!(
        error_for(SledFailure::Other("odd".to_owned())),
        KvsError::InvalidData("odd".to_owned())
    );
}
