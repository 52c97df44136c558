//! A store over files that are kept in memory.
use std::cell::RefCell;
use std::collections::{BTreeMap, HashMap};
use std::rc::Rc;

use kvs::bitcask::Bitcask;
use kvs::command::Command;
use kvs::config::Config;
use kvs::error::{ErrorKind, KvsError};
use kvs::file_name::{
    data_file_name, data_file_name_compaction, file_kind, hint_file_name, note_file, pick_active,
    stays, FileKind,
};
use kvs::index::Index;
use kvs::index_value::IndexValue;
use kvs::kvstore::StoreType;
use kvs::loader::{FileImage, FileReplay, FileStart, Loader};
use kvs::merge::{Merge, MergeAction, MergeOutput, Source};
use kvs::policy::DurabilityPolicy;
use kvs::writer::WriterState;

type Outcome<T> = Result<T, KvsError>;

#[derive(Clone)]
struct Dir {
    files: Rc<RefCell<BTreeMap<String, Vec<u8>>>>,
}

impl Dir {
    fn new() -> Dir {
        Dir {
            files: Rc::new(RefCell::new(BTreeMap::new())),
        }
    }

    fn write(&self, name: &str, bytes: &[u8]) {
        self.files.borrow_mut().insert(name.to_owned(), bytes.to_vec());
    }

    fn append(&self, name: &str, bytes: &[u8]) {
        self.files
            .borrow_mut()
            .entry(name.to_owned())
            .or_default()
            .extend_from_slice(bytes);
    }

    fn read(&self, name: &str) -> Option<Vec<u8>> {
        self.files.borrow().get(name).cloned()
    }

    fn remove(&self, name: &str) -> bool {
        self.files.borrow_mut().remove(name).is_some()
    }

    fn has(&self, name: &str) -> bool {
        self.files.borrow().contains_key(name)
    }

    fn names(&self) -> Vec<String> {
        self.files.borrow().keys().cloned().collect()
    }

    fn size(&self) -> usize {
        self.files.borrow().values().map(Vec::len).sum()
    }
}

struct Shared {
    dir: Dir,
    core: Bitcask,
    now: u64,
    syncs: usize,
    merges: usize,
}

#[derive(Clone)]
struct Store {
    shared: Rc<RefCell<Shared>>,
}

fn settings() -> Config {
    Config::new("kvs/", StoreType::Bitcask)
}

fn small() -> Config {
    Config {
        file_size_threshold: 2048,
        compaction_threshold: 2048,
        ..settings()
    }
}

impl Store {
    fn open(dir: &Dir, config: Config) -> Outcome<Store> {
        let mut readers = Vec::new();
        for name in dir.names() {
            let kind = file_kind(&name);
            let data_file_exists = match kind {
                FileKind::Hint(id) => dir.has(&data_file_name(id)),
                _ => false,
            };
            if !stays(kind, data_file_exists) {
                dir.remove(&name);
            }
            note_file(&mut readers, kind);
        }
        let active = pick_active(&mut readers);
        dir.append(&data_file_name(active), b"");

        let image = |id: &u64| FileImage {
            id: *id,
            data: dir.read(&data_file_name(*id)).unwrap(),
            hint: dir.read(&hint_file_name(*id)),
        };
        let images: Vec<FileImage> = readers.iter().map(image).collect();
        let (core, outcomes) = Bitcask::open(config, readers.iter().map(image).collect(), 0)?;
        assert_eq!(core.readers, readers);
        assert_eq!(core.writer.current_file_id, active);
        for (image, outcome) in images.iter().zip(outcomes) {
            if outcome.drop_hint {
                dir.remove(&hint_file_name(image.id));
            }
            if let Some(len) = outcome.truncate_to {
                dir.write(&data_file_name(image.id), &image.data[..len as usize]);
            }
        }
        Ok(Store {
            shared: Rc::new(RefCell::new(Shared {
                dir: dir.clone(),
                core,
                now: 0,
                syncs: 0,
                merges: 0,
            })),
        })
    }

    fn set(&self, key: &str, value: &str) -> Outcome<()> {
        let mut shared = self.shared.borrow_mut();
        let ts = shared.now / 1000;
        let command = Bitcask::set_command(key, value, ts);
        shared.append(&command)
    }

    fn remove(&self, key: &str) -> Outcome<()> {
        let mut shared = self.shared.borrow_mut();
        shared.core.check_remove(key)?;
        let command = Bitcask::remove_command(key, shared.now / 1000);
        shared.append(&command)
    }

    fn get(&self, key: &str) -> Outcome<Option<String>> {
        let shared = self.shared.borrow();
        let Some(entry) = shared.core.lookup(key) else {
            return Ok(None);
        };
        assert!(shared.core.readers.contains(&entry.file_id));
        let data = shared.dir.read(&data_file_name(entry.file_id)).unwrap();
        let start = entry.offset as usize;
        Bitcask::read_value(data[start..start + entry.len].to_vec())
    }
}

impl Shared {
    fn append(&mut self, command: &Command) -> Outcome<()> {
        let bytes = command.serialize();
        let file = data_file_name(self.core.writer.current_file_id);
        assert!(self.core.can_append(command, bytes.len()));
        self.dir.append(&file, &bytes);
        self.core.append(command, bytes.len());

        let merge = self.core.compaction_trigger();
        let now = self.now;
        if self.core.handle_policy(now) {
            self.syncs += 1;
            self.core.policy_synced(now);
        }
        if let Some(next) = self.core.rotate_if_full() {
            self.rotate_to(next);
        }
        if merge {
            self.merge(|_, _| {})?;
        }
        Ok(())
    }

    fn rotate_to(&mut self, next: u64) {
        self.dir.append(&data_file_name(next), b"");
        self.core.rotate_to(next, self.now);
    }

    /// Runs a merge; `meanwhile` sees the store in front of every action.
    fn merge(&mut self, mut meanwhile: impl FnMut(&mut Shared, &MergeAction)) -> Outcome<()> {
        self.merge_until(|shared, action| {
            meanwhile(shared, action);
            true
        })
    }

    /// Runs a merge for as long as `go_on` says so, and then gives it up.
    fn merge_until(
        &mut self,
        mut go_on: impl FnMut(&mut Shared, &MergeAction) -> bool,
    ) -> Outcome<()> {
        let ids = self.core.merge_sources();
        if ids.is_empty() {
            return Ok(());
        }
        let mut sources = Vec::new();
        for id in ids {
            let len = self.dir.read(&data_file_name(id)).unwrap().len() as u64;
            sources.push(Source { id, len });
        }
        let mut merge = Merge::new(&self.core, sources);
        self.rotate_to(merge.next_active);
        loop {
            let action = merge.next_action();
            if !go_on(self, &action) {
                return Ok(());
            }
            match action {
                MergeAction::OpenOutput { id } => {
                    assert!(id < merge.next_active);
                    self.dir.append(&data_file_name_compaction(id), b"");
                    self.dir.append(&hint_file_name(id), b"");
                    merge.output_opened();
                }
                MergeAction::CopyFrom { id, len } => {
                    let data = self.dir.read(&data_file_name(id)).unwrap();
                    assert_eq!(data.len() as u64, len);
                    let copied = merge.copy_file(&self.core.index, &data)?;
                    let output = merge.output.unwrap().id;
                    self.dir
                        .append(&data_file_name_compaction(output), &copied.records);
                    self.dir.append(&hint_file_name(output), &copied.hints);
                }
                MergeAction::FinishOutput { id } => {
                    let data = self.dir.read(&data_file_name_compaction(id)).unwrap();
                    self.dir.remove(&data_file_name_compaction(id));
                    self.dir.write(&data_file_name(id), &data);
                    merge.finish_output(&mut self.core);
                }
                MergeAction::RemoveSource { id } => {
                    assert!(self.dir.remove(&data_file_name(id)));
                    self.dir.remove(&hint_file_name(id));
                    merge.source_removed(&mut self.core);
                }
                MergeAction::Complete => {
                    merge.complete(&mut self.core);
                    self.merges += 1;
                    return Ok(());
                }
            }
        }
    }
}

fn put(ts: u64, key: &[u8], value: &[u8]) -> Vec<u8> {
    Command::Put { ts, key, value }.serialize()
}

fn hint(file_id: u64, ts: u64, offset: u64, len: usize, key: &[u8]) -> Vec<u8> {
    IndexValue {
        file_id,
        ts,
        offset,
        len,
    }
    .serialize(key)
}

fn fill_twice(store: &Store, filler: &str) -> Outcome<()> {
    for i in 0..100 {
        store.set(&format!("filler{}", i), filler)?;
    }
    for i in 0..100 {
        store.set(&format!("filler{}", i), filler)?;
    }
    Ok(())
}

// ---------- replay ----------

#[test]
fn bitcask_replay_ignores_truncated_tail() -> Outcome<()> {
    let dir = Dir::new();
    let valid = put(7, b"alpha", b"beta");
    dir.append("000001.data", &valid);
    let mut truncated = vec![18u8, 0, 0, 0];
    truncated.extend_from_slice(b"incomplete");
    dir.append("000001.data", &truncated);

    let bitcask = Store::open(&dir, settings())?;

    assert_eq!(bitcask.get("alpha")?, Some("beta".to_owned()));
    assert_eq!(dir.read("000001.data").unwrap().len(), valid.len());
    Ok(())
}

// A hint deliberately mapping a DIFFERENT key ("zeta") to the sealed
// record makes hint usage observable: if the hint is loaded, "zeta"
// resolves and "alpha" is unknown; if the data file were replayed
// instead, it would be the other way around.
#[test]
fn bitcask_replay_uses_hint_file_for_sealed_files() -> Outcome<()> {
    let dir = Dir::new();
    let sealed = put(1, b"alpha", b"beta");
    dir.write("000001.data", &sealed);
    dir.write("000002.data", &put(2, b"gamma", b"delta"));
    dir.write("000001.hint", &hint(1, 1, 0, sealed.len(), b"zeta"));

    let bitcask = Store::open(&dir, settings())?;

    assert_eq!(bitcask.get("zeta")?, Some("beta".to_owned()));
    assert_eq!(bitcask.get("alpha")?, None);
    assert_eq!(bitcask.get("gamma")?, Some("delta".to_owned()));
    Ok(())
}

// Hint-loaded files take part in later-id-wins ordering like any other
// file: a hinted file must override keys replayed from earlier files.
#[test]
fn bitcask_hint_of_later_file_overrides_earlier_data_replay() -> Outcome<()> {
    let dir = Dir::new();
    dir.write("000001.data", &put(1, b"k", b"old"));
    let new = put(2, b"k", b"new");
    dir.write("000002.data", &new);
    dir.write("000002.hint", &hint(2, 2, 0, new.len(), b"k"));
    dir.write("000003.data", &put(3, b"other", b"x"));

    let bitcask = Store::open(&dir, settings())?;

    assert_eq!(bitcask.get("k")?, Some("new".to_owned()));
    assert_eq!(bitcask.get("other")?, Some("x".to_owned()));
    Ok(())
}

// Crash-recovery shape: a merge output (with hint) is the highest id, so
// opening elects it as the active file. The hint must be skipped for the
// active file so replay sets the append offset: writes landing after
// this reopen must survive the next one.
#[test]
fn bitcask_writes_after_reopen_onto_compacted_file_survive() -> Outcome<()> {
    let dir = Dir::new();
    dir.write("000001.data", &put(1, b"a", b"1"));
    let compacted = put(2, b"b", b"2");
    dir.write("000002.data", &compacted);
    dir.write("000002.hint", &hint(2, 2, 0, compacted.len(), b"b"));

    let bitcask = Store::open(&dir, settings())?;
    bitcask.set("c", "3")?;
    assert_eq!(bitcask.get("c")?, Some("3".to_owned()));
    drop(bitcask);

    let bitcask = Store::open(&dir, settings())?;
    assert_eq!(bitcask.get("a")?, Some("1".to_owned()));
    assert_eq!(bitcask.get("b")?, Some("2".to_owned()));
    assert_eq!(bitcask.get("c")?, Some("3".to_owned()));
    Ok(())
}

#[test]
fn bitcask_torn_hint_file_falls_back_to_data_replay() -> Outcome<()> {
    let dir = Dir::new();
    let sealed = put(1, b"alpha", b"beta");
    dir.write("000001.data", &sealed);
    dir.write("000002.data", &put(2, b"gamma", b"delta"));
    let mut torn = hint(1, 1, 0, sealed.len(), b"zeta");
    torn.extend_from_slice(&[0xAA, 0xBB, 0xCC]);
    dir.write("000001.hint", &torn);

    let bitcask = Store::open(&dir, settings())?;

    assert_eq!(bitcask.get("alpha")?, Some("beta".to_owned()));
    assert_eq!(bitcask.get("gamma")?, Some("delta".to_owned()));
    assert_eq!(bitcask.get("zeta")?, None);
    assert!(
        !dir.has("000001.hint"),
        "damaged hint file should be removed during fallback"
    );
    Ok(())
}

// Nothing of a damaged hint is used, not even the sound hints at its front.
#[test]
fn damaged_hints_leave_no_trace() -> Outcome<()> {
    let sealed = put(1, b"alpha", b"beta");
    let sound = hint(1, 1, 0, sealed.len(), b"zeta");
    let mut flipped = sound.clone();
    flipped.extend_from_slice(&hint(1, 1, 0, sealed.len(), b"eta"));
    let last = flipped.len() - 1;
    flipped[last] ^= 1;
    let mut torn = sound.clone();
    torn.extend_from_slice(&sound[..20]);
    for bad in [flipped, torn] {
        let dir = Dir::new();
        dir.write("000001.data", b"");
        dir.write("000002.data", &sealed);
        dir.write("000001.hint", &bad);
        dir.write("000002.hint", &bad);
        dir.write("000003.data", b"");

        let mut loader = Loader::new(3, 0);
        assert!(!loader.replay_hint(1, &bad));
        assert_eq!(loader.index.get(b"zeta"), None);

        let store = Store::open(&dir, settings())?;
        assert_eq!(store.get("zeta")?, None);
        assert_eq!(store.get("eta")?, None);
        assert_eq!(store.get("alpha")?, Some("beta".to_owned()));
        assert!(!dir.has("000001.hint"));
        assert!(!dir.has("000002.hint"));
    }
    Ok(())
}

// The hint file of the active file is not looked at, and stays.
#[test]
fn hint_of_the_active_file_is_not_read() -> Outcome<()> {
    let dir = Dir::new();
    let active = put(1, b"alpha", b"beta");
    dir.write("000001.data", &active);
    dir.write("000001.hint", &hint(1, 1, 0, active.len(), b"zeta"));
    let loader = Loader::new(1, 0);
    assert!(!loader.wants_hint(1));
    assert!(loader.wants_hint(2));
    let store = Store::open(&dir, settings())?;
    assert_eq!(store.get("zeta")?, None);
    assert_eq!(store.get("alpha")?, Some("beta".to_owned()));
    assert!(dir.has("000001.hint"));
    Ok(())
}

// Crash mid-merge, before any rename: sources intact, a half-written
// .compact output, its hint (an orphan: no matching .data), and the
// empty active file the merge created at snapshot time.
#[test]
fn crash_before_merge_rename_recovers_from_sources() -> Outcome<()> {
    let dir = Dir::new();
    dir.write("000001.data", &put(1, b"k1", b"a"));
    dir.write("000002.data", &put(2, b"k2", b"b"));
    dir.write("000005.data.compact", b"half-written merge output");
    dir.write("000005.hint", b"half-written hint");
    dir.write("000010.data", b"");

    let bitcask = Store::open(&dir, settings())?;

    assert_eq!(bitcask.get("k1")?, Some("a".to_owned()));
    assert_eq!(bitcask.get("k2")?, Some("b".to_owned()));
    assert!(
        !dir.has("000005.data.compact"),
        ".compact leftover should be removed on open"
    );
    assert!(
        !dir.has("000005.hint"),
        "orphan hint of the unfinished output should be removed on open"
    );

    // store stays usable across another cycle
    bitcask.set("k3", "c")?;
    drop(bitcask);
    let bitcask = Store::open(&dir, settings())?;
    assert_eq!(bitcask.get("k1")?, Some("a".to_owned()));
    assert_eq!(bitcask.get("k3")?, Some("c".to_owned()));
    Ok(())
}

fn merged_output(dir: &Dir) {
    // the live records at merge time: k's latest (copied from file 2)
    // and k2's only version (copied from file 1)
    let rec_k = put(3, b"k", b"new");
    let rec_k2 = put(1, b"k2", b"x");

    let mut output = rec_k.clone();
    output.extend_from_slice(&rec_k2);
    dir.write("000003.data", &output);

    let mut hints = hint(3, 3, 0, rec_k.len(), b"k");
    hints.extend_from_slice(&hint(3, 1, rec_k.len() as u64, rec_k2.len(), b"k2"));
    dir.write("000003.hint", &hints);

    dir.write("000010.data", b"");
}

// Crash after the outputs were renamed to .data but before any source
// was deleted: sources and outputs coexist; the outputs' higher ids must
// win over the stale copies in the sources.
#[test]
fn crash_after_rename_before_deletion_prefers_outputs() -> Outcome<()> {
    let dir = Dir::new();
    let mut src1 = put(1, b"k", b"old");
    src1.extend_from_slice(&put(1, b"k2", b"x"));
    dir.write("000001.data", &src1);
    dir.write("000002.data", &put(3, b"k", b"new"));
    merged_output(&dir);

    let bitcask = Store::open(&dir, settings())?;

    assert_eq!(
        bitcask.get("k")?,
        Some("new".to_owned()),
        "stale copy in an undeleted source must not win"
    );
    assert_eq!(bitcask.get("k2")?, Some("x".to_owned()));
    Ok(())
}

// Crash midway through source deletion: one source already gone, one
// still present. Same guarantee as above.
#[test]
fn crash_during_source_deletion_prefers_outputs() -> Outcome<()> {
    let dir = Dir::new();
    // source 000001.data already deleted; 000002.data survived the crash
    dir.write("000002.data", &put(3, b"k", b"new"));
    merged_output(&dir);

    let bitcask = Store::open(&dir, settings())?;

    assert_eq!(bitcask.get("k")?, Some("new".to_owned()));
    assert_eq!(bitcask.get("k2")?, Some("x".to_owned()));

    // and the next merge cycle can still clean up: store stays writable
    bitcask.set("k3", "y")?;
    assert_eq!(bitcask.get("k3")?, Some("y".to_owned()));
    Ok(())
}

// ---------- reads and writes ----------

#[test]
fn set_then_get_with_sync_on_every_put() -> Outcome<()> {
    let dir = Dir::new();
    let config = || Config {
        durability_policy: DurabilityPolicy::SyncOnEveryPut,
        ..settings()
    };
    let store = Store::open(&dir, config())?;
    store.set("key1", "value1")?;
    assert_eq!(store.get("key1")?, Some("value1".to_owned()));
    assert_eq!(store.shared.borrow().syncs, 1);

    drop(store);
    let store = Store::open(&dir, config())?;
    assert_eq!(store.get("key1")?, Some("value1".to_owned()));
    Ok(())
}

#[test]
fn set_then_get_with_sync_on_interval() -> Outcome<()> {
    let dir = Dir::new();
    let store = Store::open(
        &dir,
        Config {
            durability_policy: DurabilityPolicy::SyncOnInterval,
            ..settings()
        },
    )?;

    store.set("key1", "value1")?;
    assert_eq!(store.get("key1")?, Some("value1".to_owned()));

    // A second put lands within the sync interval, so no flush is due yet;
    // the value must still be readable through the store.
    store.set("key2", "value2")?;
    assert_eq!(store.get("key2")?, Some("value2".to_owned()));
    assert_eq!(store.shared.borrow().syncs, 0);

    store.shared.borrow_mut().now = 1000;
    store.set("key3", "value3")?;
    assert_eq!(store.shared.borrow().syncs, 1);
    store.shared.borrow_mut().now = 1999;
    store.set("key4", "value4")?;
    assert_eq!(store.shared.borrow().syncs, 1);
    Ok(())
}

// Should get previously stored value.
#[test]
fn get_stored_value() -> Outcome<()> {
    let dir = Dir::new();
    let store = Store::open(&dir, settings())?;

    store.set("key1", "value1")?;
    store.set("key2", "value2")?;

    assert_eq!(store.get("key1")?, Some("value1".to_owned()));
    assert_eq!(store.get("key2")?, Some("value2".to_owned()));

    // Open again and check persistent data.
    drop(store);
    let store = Store::open(&dir, settings())?;
    assert_eq!(store.get("key1")?, Some("value1".to_owned()));
    assert_eq!(store.get("key2")?, Some("value2".to_owned()));
    Ok(())
}

// Should overwrite existent value.
#[test]
fn overwrite_value() -> Outcome<()> {
    let dir = Dir::new();
    let store = Store::open(&dir, settings())?;

    store.set("key1", "value1")?;
    assert_eq!(store.get("key1")?, Some("value1".to_owned()));
    store.set("key1", "value2")?;
    assert_eq!(store.get("key1")?, Some("value2".to_owned()));

    drop(store);
    let store = Store::open(&dir, settings())?;
    assert_eq!(store.get("key1")?, Some("value2".to_owned()));
    store.set("key1", "value3")?;
    assert_eq!(store.get("key1")?, Some("value3".to_owned()));
    Ok(())
}

// Should get `None` when getting a non-existent key.
#[test]
fn get_non_existent_value() -> Outcome<()> {
    let dir = Dir::new();
    let store = Store::open(&dir, settings())?;

    store.set("key1", "value1")?;
    assert_eq!(store.get("key2")?, None);

    drop(store);
    let store = Store::open(&dir, settings())?;
    assert_eq!(store.get("key2")?, None);
    Ok(())
}

#[test]
fn remove_non_existent_key() -> Outcome<()> {
    let store = Store::open(&Dir::new(), settings())?;
    assert!(store.remove("key1").is_err());
    assert_eq!(store.remove("key1"), Err(KvsError::KeyNotFound));
    Ok(())
}

#[test]
fn remove_key() -> Outcome<()> {
    let store = Store::open(&Dir::new(), settings())?;
    store.set("key1", "value1")?;
    assert!(store.remove("key1").is_ok());
    assert_eq!(store.get("key1")?, None);
    Ok(())
}

#[test]
fn removed_key_stays_removed_after_reopen() -> Outcome<()> {
    let dir = Dir::new();
    let store = Store::open(&dir, settings())?;

    store.set("key1", "value1")?;
    store.set("key2", "value2")?;
    store.remove("key1")?;

    drop(store);
    let store = Store::open(&dir, settings())?;
    assert_eq!(store.get("key1")?, None);
    assert_eq!(store.get("key2")?, Some("value2".to_owned()));
    Ok(())
}

// A removed key whose Put record still sits in a sealed file must not be
// resurrected by the merge dropping its tombstone.
#[test]
fn remove_then_compaction_does_not_resurrect() -> Outcome<()> {
    let dir = Dir::new();
    let store = Store::open(&dir, small())?;

    store.set("victim", "resurrect-me-not")?;

    let filler = "v".repeat(32);
    for i in 0..100 {
        store.set(&format!("filler{}", i), &filler)?;
    }
    store.remove("victim")?;
    for i in 0..100 {
        store.set(&format!("filler{}", i), &filler)?;
    }
    assert!(store.shared.borrow().merges > 0);

    assert_eq!(store.get("victim")?, None);

    drop(store);
    let store = Store::open(&dir, small())?;
    assert_eq!(store.get("victim")?, None);
    assert_eq!(store.get("filler0")?, Some(filler.clone()));
    Ok(())
}

// A single record may legally exceed the rotation threshold.
#[test]
fn record_larger_than_file_threshold_roundtrips() -> Outcome<()> {
    let dir = Dir::new();
    let config = || Config {
        file_size_threshold: 1024,
        ..settings()
    };
    let store = Store::open(&dir, config())?;

    let big = "x".repeat(4096);
    store.set("big", &big)?;
    store.set("small", "y")?;
    assert_eq!(store.get("big")?, Some(big.clone()));
    assert_eq!(store.get("small")?, Some("y".to_owned()));

    drop(store);
    let store = Store::open(&dir, config())?;
    assert_eq!(store.get("big")?, Some(big));
    assert_eq!(store.get("small")?, Some("y".to_owned()));
    Ok(())
}

#[test]
fn empty_key_and_empty_value_roundtrip() -> Outcome<()> {
    let dir = Dir::new();
    let store = Store::open(&dir, settings())?;

    store.set("", "empty-key")?;
    store.set("k", "")?;
    assert_eq!(store.get("")?, Some("empty-key".to_owned()));
    assert_eq!(store.get("k")?, Some("".to_owned()));

    drop(store);
    let store = Store::open(&dir, settings())?;
    assert_eq!(store.get("")?, Some("empty-key".to_owned()));
    assert_eq!(store.get("k")?, Some("".to_owned()));
    store.remove("")?;
    assert_eq!(store.get("")?, None);
    Ok(())
}

struct Rng(u64);

impl Rng {
    fn next(&mut self) -> u64 {
        let mut x = self.0;
        x ^= x << 13;
        x ^= x >> 7;
        x ^= x << 17;
        self.0 = x;
        x
    }
}

// Random ops against an in-memory oracle, with thresholds small enough that
// rotation, compaction, and hint files all fire organically, and periodic
// reopens to exercise replay and hint loading. Deterministic seed.
#[test]
fn random_ops_match_in_memory_model() -> Outcome<()> {
    let dir = Dir::new();
    let mut store = Store::open(&dir, small())?;
    let mut model: HashMap<String, String> = HashMap::new();
    let mut rng = Rng(0xDEAD_BEEF);

    for step in 0..3000 {
        let key = format!("key{}", rng.next() % 50);
        match rng.next() % 10 {
            0..=6 => {
                let value = format!("value{}", rng.next() % 1000);
                store.set(&key, &value)?;
                model.insert(key, value);
            }
            7..=8 => {
                let expected = model.remove(&key);
                let result = store.remove(&key);
                assert_eq!(
                    result.is_ok(),
                    expected.is_some(),
                    "step {step}: remove({key}) disagreed with the model"
                );
            }
            _ => {
                assert_eq!(
                    store.get(&key)?,
                    model.get(&key).cloned(),
                    "step {step}: get({key}) disagreed with the model"
                );
            }
        }

        if step % 1000 == 999 {
            assert!(store.shared.borrow().merges > 0);
            drop(store);
            store = Store::open(&dir, small())?;
            for (k, v) in &model {
                assert_eq!(
                    store.get(k)?.as_deref(),
                    Some(v.as_str()),
                    "after reopen at step {step}: lost {k}"
                );
            }
        }
    }
    Ok(())
}

// Writing more than one file's worth of data must roll over into new data
// files, and every value must survive a reopen from the multi-file state.
#[test]
fn rotation_splits_log_into_multiple_files() -> Outcome<()> {
    let dir = Dir::new();
    let store = Store::open(
        &dir,
        Config {
            file_size_threshold: 4096,
            ..settings()
        },
    )?;

    let value = "v".repeat(64);
    for i in 0..200 {
        store.set(&format!("key{}", i), &value)?;
    }
    drop(store);

    let data_files = dir
        .names()
        .iter()
        .filter(|n| n.len() == "000001.data".len() && n.ends_with(".data"))
        .count();
    assert!(
        data_files >= 2,
        "expected rotation to create multiple .data files, found {data_files}"
    );

    let store = Store::open(&dir, settings())?;
    for i in 0..200 {
        let key = format!("key{}", i);
        assert_eq!(
            store.get(&key)?,
            Some(value.clone()),
            "lost {key} after reopen"
        );
    }
    Ok(())
}

// ---------- merges ----------

// A key merged into a compaction output (id above the sealed files) and then
// overwritten in the active file must keep the NEW value across reopen:
// replay is later-id-wins, so the active writer has to rotate above the
// compaction outputs before accepting further writes.
#[test]
fn overwrite_after_compaction_survives_reopen() -> Outcome<()> {
    let dir = Dir::new();
    let store = Store::open(&dir, small())?;

    store.set("k1", "old")?;

    // First pass seals k1 into an old file; second pass makes the first pass
    // stale and pushes past the compaction threshold, so k1 (still live, still
    // in the old file) gets merged into a compaction output.
    let filler = "v".repeat(32);
    fill_twice(&store, &filler)?;

    store.set("k1", "new")?;
    assert_eq!(store.get("k1")?, Some("new".to_owned()));

    drop(store);
    let store = Store::open(&dir, settings())?;
    assert_eq!(store.get("k1")?, Some("new".to_owned()));
    assert_eq!(store.get("filler0")?, Some(filler.clone()));
    Ok(())
}

// Every compaction output gets a sibling hint file (000004.data -> 000004.hint)
// describing its records, and no hint file may outlive its data file.
#[test]
fn merge_writes_hint_files_next_to_outputs() -> Outcome<()> {
    let dir = Dir::new();
    let store = Store::open(&dir, small())?;
    fill_twice(&store, &"v".repeat(32))?;
    drop(store);

    let mut hint_files = 0;
    let mut non_empty_hint_files = 0;
    for name in dir.names() {
        if let Some(stem) = name.strip_suffix(".hint") {
            hint_files += 1;
            if !dir.read(&name).unwrap().is_empty() {
                non_empty_hint_files += 1;
            }
            assert!(
                dir.has(&format!("{stem}.data")),
                "hint file {name} has no data file sibling"
            );
        }
    }
    assert!(hint_files >= 1, "merge should write at least one hint file");
    assert!(
        non_empty_hint_files >= 1,
        "at least one hint file should describe live records"
    );
    Ok(())
}

// Hint files are a startup optimization: damaged or orphaned ones must never
// brick an open or corrupt the recovered data.
#[test]
fn open_survives_corrupt_and_orphan_hint_files() -> Outcome<()> {
    let dir = Dir::new();
    let store = Store::open(&dir, small())?;
    let filler = "v".repeat(32);
    fill_twice(&store, &filler)?;
    drop(store);

    // an orphan hint with no data file (e.g. crash between merge steps)
    dir.write("000099.hint", b"orphan");
    // a foreign file that merely looks hint-like
    dir.write("abc.hint", b"not ours");

    // every real hint file gets its content replaced with garbage
    for name in dir.names() {
        if name.ends_with(".hint") && name != "000099.hint" {
            dir.write(&name, b"this is not a hint record");
        }
    }

    let store = Store::open(&dir, small())?;
    for i in 0..100 {
        let key = format!("filler{}", i);
        assert_eq!(store.get(&key)?, Some(filler.clone()), "lost {key}");
    }

    assert!(
        !dir.has("000099.hint"),
        "orphan hint with no data file should be removed on open"
    );
    assert!(dir.has("abc.hint"), "foreign .hint files must be kept");
    Ok(())
}

// Loading the keydir from hints and rebuilding it by replay must agree, and
// a successful hint load must not consume the hint files.
#[test]
fn reopen_from_hints_matches_replay_from_data() -> Outcome<()> {
    let dir = Dir::new();
    let store = Store::open(&dir, small())?;
    let filler = "v".repeat(32);
    fill_twice(&store, &filler)?;
    drop(store);

    let hints: Vec<String> = dir
        .names()
        .into_iter()
        .filter(|n| n.ends_with(".hint"))
        .collect();
    assert!(!hints.is_empty(), "merge should have written hints");

    // reopen #1: keydir comes from the hints
    let store = Store::open(&dir, small())?;
    for i in 0..100 {
        let key = format!("filler{}", i);
        assert_eq!(
            store.get(&key)?,
            Some(filler.clone()),
            "hint path lost {key}"
        );
    }
    let mut from_hints = Vec::new();
    for i in 0..100 {
        from_hints.push(store.shared.borrow().core.lookup(&format!("filler{}", i)));
    }
    drop(store);

    for path in &hints {
        assert!(
            dir.has(path),
            "a successful hint load must not delete {path:?}"
        );
        dir.remove(path);
    }

    // reopen #2: keydir must come out identical from data replay alone
    let store = Store::open(&dir, small())?;
    for i in 0..100 {
        let key = format!("filler{}", i);
        assert_eq!(
            store.get(&key)?,
            Some(filler.clone()),
            "replay path lost {key}"
        );
        assert_eq!(store.shared.borrow().core.lookup(&key), from_hints[i]);
    }
    Ok(())
}

// Handles are cheap clones over shared state: writes through one handle are
// visible through another, and dropping a handle must not disturb the
// survivors.
#[test]
fn clone_shares_state_and_dropping_one_handle_is_harmless() -> Outcome<()> {
    let dir = Dir::new();
    let store = Store::open(&dir, settings())?;
    let clone = store.clone();

    store.set("k1", "v1")?;
    assert_eq!(clone.get("k1")?, Some("v1".to_owned()));

    drop(store);
    clone.set("k2", "v2")?;
    assert_eq!(clone.get("k1")?, Some("v1".to_owned()));
    assert_eq!(clone.get("k2")?, Some("v2".to_owned()));

    drop(clone);
    let store = Store::open(&dir, settings())?;
    assert_eq!(store.get("k1")?, Some("v1".to_owned()));
    assert_eq!(store.get("k2")?, Some("v2".to_owned()));
    Ok(())
}

// Opening cleans up leftover .data.compact temp files from a crashed merge,
// but must not touch any other file living in the directory.
#[test]
fn open_removes_compact_leftovers_but_keeps_foreign_files() -> Outcome<()> {
    let dir = Dir::new();
    dir.write("notes.txt", b"do not delete");
    dir.write("000007.data.compact", b"half-written merge output");

    let store = Store::open(&dir, settings())?;
    store.set("k", "v")?;
    assert_eq!(store.get("k")?, Some("v".to_owned()));
    drop(store);

    assert!(
        dir.has("notes.txt"),
        "open() must not delete unrelated files"
    );
    assert!(
        !dir.has("000007.data.compact"),
        "open() should clean up .data.compact leftovers"
    );
    Ok(())
}

// Insert data until total size of the directory decreases.
// Test data correctness after compaction.
#[test]
fn compaction() -> Outcome<()> {
    let dir = Dir::new();
    let store = Store::open(&dir, settings())?;

    let mut current_size = dir.size();
    for iter in 0..1000 {
        for key_id in 0..1000 {
            let key = format!("key{}", key_id);
            let value = format!("{}", iter);
            store.set(&key, &value)?;
        }

        let new_size = dir.size();
        if new_size > current_size {
            current_size = new_size;
            continue;
        }
        // Compaction triggered.

        drop(store);
        // reopen and check content.
        let store = Store::open(&dir, settings())?;
        for key_id in 0..1000 {
            let key = format!("key{}", key_id);
            assert_eq!(store.get(&key)?, Some(format!("{}", iter)));
        }
        return Ok(());
    }

    panic!("No compaction detected");
}

fn garbage_store(dir: &Dir) -> Outcome<(Store, HashMap<String, String>)> {
    let config = Config {
        file_size_threshold: 300,
        compaction_threshold: 1_000_000,
        ..settings()
    };
    let store = Store::open(dir, config)?;
    let mut model = HashMap::new();
    for i in 0..60u64 {
        let key = format!("key{}", i % 13);
        if i % 7 == 6 && model.contains_key(&key) {
            store.remove(&key)?;
            model.remove(&key);
        } else {
            let value = format!("value{i}");
            store.set(&key, &value)?;
            model.insert(key, value);
        }
    }
    Ok((store, model))
}

fn assert_holds(store: &Store, model: &HashMap<String, String>) -> Outcome<()> {
    for i in 0..20 {
        let key = format!("key{i}");
        assert_eq!(store.get(&key)?, model.get(&key).cloned(), "{key}");
    }
    Ok(())
}

// A crash in front of any step of a merge leaves files that open to the same
// contents, also when the last write was cut short.
#[test]
fn crash_at_any_step_of_a_merge_loses_nothing() -> Outcome<()> {
    let dir = Dir::new();
    let (store, model) = garbage_store(&dir)?;
    store.shared.borrow_mut().core.config.compaction_threshold = 1;

    let mut steps = 0;
    let mut kinds = Vec::new();
    store.shared.borrow_mut().merge(|shared, action| {
        steps += 1;
        if !kinds.iter().any(|k: &String| format!("{action:?}").starts_with(k.as_str())) {
            kinds.push(format!("{action:?}").split(' ').next().unwrap().to_owned());
        }
        let left = Dir {
            files: Rc::new(RefCell::new(shared.dir.files.borrow().clone())),
        };
        let active = data_file_name(shared.core.writer.current_file_id);
        left.append(&active, &put(1, b"key3", b"never finished")[..20]);
        let reopened = Store::open(&left, settings()).unwrap();
        assert_holds(&reopened, &model).unwrap();
    })?;
    assert_eq!(
        kinds,
        [
            "OpenOutput",
            "CopyFrom",
            "FinishOutput",
            "RemoveSource",
            "Complete"
        ]
    );
    assert!(steps > 10);
    assert_holds(&store, &model)?;
    Ok(())
}

// Writes that land between the steps of a merge win over the copies.
#[test]
fn writes_during_a_merge_survive() -> Outcome<()> {
    let dir = Dir::new();
    let (store, mut model) = garbage_store(&dir)?;
    store.shared.borrow_mut().core.config.compaction_threshold = 1;

    let mut step = 0u64;
    store.shared.borrow_mut().merge(|shared, _| {
        shared.core.config.compaction_threshold = u64::MAX;
        step += 1;
        let key = format!("key{}", step % 13);
        if step % 5 == 0 && model.contains_key(&key) {
            let command = Command::Rm {
                ts: step,
                key: key.as_bytes(),
            };
            shared.append(&command).unwrap();
            model.remove(&key);
        } else {
            let value = format!("during{step}");
            let command = Bitcask::set_command(&key, &value, step);
            shared.append(&command).unwrap();
            model.insert(key, value);
        }
    })?;
    assert_holds(&store, &model)?;
    drop(store);
    assert_holds(&Store::open(&dir, settings())?, &model)?;
    Ok(())
}

// A merge that is given up in front of any of its steps changes nothing: the
// store goes on, another merge can be run, and a reopen finds the same.
#[test]
fn merge_given_up_at_any_step_loses_nothing() -> Outcome<()> {
    let mut limit = 0;
    loop {
        let dir = Dir::new();
        let (store, mut model) = garbage_store(&dir)?;
        store.shared.borrow_mut().core.config.compaction_threshold = 1;
        let mut steps = 0;
        store.shared.borrow_mut().merge_until(|_, _| {
            steps += 1;
            steps <= limit
        })?;
        let finished = store.shared.borrow().merges == 1;
        assert_holds(&store, &model)?;
        assert_holds(&Store::open(&dir, settings())?, &model)?;

        store.shared.borrow_mut().core.config.compaction_threshold = u64::MAX;
        store.set("key1", "behind the merge")?;
        model.insert("key1".to_owned(), "behind the merge".to_owned());
        if model.remove("key2").is_some() {
            store.remove("key2")?;
        }
        store.shared.borrow_mut().core.config.compaction_threshold = 0;
        store.shared.borrow_mut().merge(|_, _| {})?;
        assert_holds(&store, &model)?;
        drop(store);
        assert_holds(&Store::open(&dir, settings())?, &model)?;
        if finished {
            break;
        }
        limit += 1;
    }
    assert!(limit > 10);
    Ok(())
}

// A crash between an action on the files and its entry: the output has its own
// name already, or the sealed file is gone already.
#[test]
fn crash_behind_an_action_on_the_files_loses_nothing() -> Outcome<()> {
    let dir = Dir::new();
    let (store, model) = garbage_store(&dir)?;
    store.shared.borrow_mut().core.config.compaction_threshold = 1;
    let mut seen = 0;
    store.shared.borrow_mut().merge(|shared, action| {
        let left = Dir {
            files: Rc::new(RefCell::new(shared.dir.files.borrow().clone())),
        };
        match action {
            MergeAction::FinishOutput { id } => {
                let data = left.read(&data_file_name_compaction(*id)).unwrap();
                left.remove(&data_file_name_compaction(*id));
                left.write(&data_file_name(*id), &data);
            }
            MergeAction::RemoveSource { id } => {
                left.remove(&data_file_name(*id));
            }
            _ => return,
        }
        seen += 1;
        assert_holds(&Store::open(&left, settings()).unwrap(), &model).unwrap();
    })?;
    assert!(seen > 2);
    Ok(())
}

// Any incomplete record at the end of the active file is cut off, whatever its
// bytes are.
#[test]
fn any_incomplete_tail_is_cut_off() -> Outcome<()> {
    let whole = put(1, b"a", b"1");
    for tail in [
        vec![0u8],
        vec![0xff; 7],
        vec![0xff; 8],
        vec![0xff; 300],
        vec![7, 7, 7, 7, 10, 0, 0, 0, 1, 2, 3],
    ] {
        let dir = Dir::new();
        let mut log = whole.clone();
        log.extend_from_slice(&tail);
        dir.write("000001.data", &log);
        let store = Store::open(&dir, settings())?;
        assert_eq!(dir.read("000001.data").unwrap(), whole);
        assert_eq!(store.get("a")?, Some("1".to_owned()));
        store.set("b", "2")?;
        drop(store);
        assert_eq!(
            Store::open(&dir, settings())?.get("b")?,
            Some("2".to_owned())
        );

        dir.write("000001.data", &log);
        dir.write("000002.data", b"");
        assert!(matches!(
            Store::open(&dir, settings()),
            Err(KvsError::Corruption)
        ));
    }
    Ok(())
}

#[test]
fn opening_without_files_starts_with_an_empty_one() -> Outcome<()> {
    let (bitcask, outcomes) = Bitcask::open(settings(), Vec::new(), 42)?;
    assert_eq!(bitcask.readers, [1]);
    assert_eq!(
        bitcask.writer,
        WriterState {
            current_file_id: 1,
            offset: 0,
            flushed_offset: 0,
            last_ts_flushed: 42,
            stale_bytes_count: 0,
        }
    );
    assert_eq!(bitcask.lookup("k"), None);
    assert_eq!(
        outcomes,
        [FileReplay {
            drop_hint: false,
            truncate_to: None
        }]
    );
    Ok(())
}

#[test]
fn files_begin_with_their_hints() {
    let sealed = put(1, b"alpha", b"beta");
    let sound = hint(1, 1, 0, sealed.len(), b"alpha");
    let mut loader = Loader::new(2, 0);
    assert_eq!(
        loader.begin_file(1, None),
        FileStart::NeedsData { drop_hint: false }
    );
    assert_eq!(
        loader.begin_file(1, Some(&sound[..9])),
        FileStart::NeedsData { drop_hint: true }
    );
    assert_eq!(
        loader.begin_file(2, Some(&sound)),
        FileStart::NeedsData { drop_hint: false }
    );
    assert_eq!(loader.index.get(b"alpha"), None);
    assert_eq!(loader.begin_file(1, Some(&sound)), FileStart::Loaded);
    assert_eq!(loader.index.get(b"alpha").unwrap().len, sealed.len());
}

// What a whole merge comes to when nothing is written meanwhile.
#[test]
fn whole_merge_keeps_values_and_leaves_only_live_records() -> Outcome<()> {
    let dir = Dir::new();
    let (store, model) = garbage_store(&dir)?;
    let mut shared = store.shared.borrow_mut();
    shared.core.config.compaction_threshold = 1;
    let old_active = shared.core.writer.current_file_id;
    let sources = shared.core.merge_sources();
    assert!(!sources.is_empty());
    shared.merge(|_, _| {})?;
    let new_active = shared.core.writer.current_file_id;
    assert_eq!(shared.core.writer.stale_bytes_count, 0);
    let outputs: Vec<u64> = shared
        .core
        .readers
        .iter()
        .copied()
        .filter(|id| *id != old_active && *id != new_active)
        .collect();
    assert!(!outputs.is_empty());
    for id in &sources {
        assert!(!shared.core.readers.contains(id));
        assert!(!dir.has(&data_file_name(*id)));
        assert!(!dir.has(&hint_file_name(*id)));
    }
    for id in outputs {
        assert!(old_active < id && id < new_active);
        let data = dir.read(&data_file_name(id)).unwrap();
        let mut hints = Vec::new();
        let mut at = 0;
        while at < data.len() {
            let (command, used) = Command::deserialize(&data[at..])?;
            assert!(command.get_value().is_some());
            let entry = *shared.core.index.get(command.get_key()).unwrap();
            assert_eq!((entry.file_id, entry.offset, entry.len), (id, at as u64, used));
            hints.extend_from_slice(&entry.serialize(command.get_key()));
            at += used;
        }
        assert_eq!(dir.read(&hint_file_name(id)).unwrap(), hints);
    }
    drop(shared);
    assert_holds(&store, &model)
}

// A second merge goes over the outputs of the first.
#[test]
fn merges_can_follow_each_other() -> Outcome<()> {
    let dir = Dir::new();
    let (store, model) = garbage_store(&dir)?;
    store.shared.borrow_mut().core.config.compaction_threshold = 0;
    for _ in 0..3 {
        store.shared.borrow_mut().merge(|_, _| {})?;
        assert_holds(&store, &model)?;
    }
    assert_eq!(store.shared.borrow().merges, 3);
    let files = store.shared.borrow().core.readers.len();
    let data_files = dir.names().iter().filter(|n| n.ends_with(".data")).count();
    assert_eq!(files, data_files);
    Ok(())
}

// ---------- the parts on their own ----------

#[test]
fn corruption_in_a_record_fails_the_open() {
    let dir = Dir::new();
    let mut log = put(1, b"a", b"1");
    let first = log.len();
    log.extend_from_slice(&put(2, b"b", b"2"));
    log[first - 1] ^= 1;
    dir.write("000001.data", &log);
    assert!(matches!(
        Store::open(&dir, settings()),
        Err(KvsError::Corruption)
    ));
}

#[test]
fn torn_tail_of_a_sealed_file_fails_the_open() {
    let dir = Dir::new();
    let mut log = put(1, b"a", b"1");
    log.extend_from_slice(&put(2, b"b", b"2")[..12]);
    dir.write("000001.data", &log);
    dir.write("000002.data", b"");
    assert!(matches!(
        Store::open(&dir, settings()),
        Err(KvsError::Corruption)
    ));
}

#[test]
fn loader_counts_removals_and_finds_the_end() {
    let mut log = put(1, b"a", b"1");
    let rm = Command::Rm { ts: 2, key: b"a" }.serialize();
    log.extend_from_slice(&rm);
    let whole = log.len() as u64;
    log.extend_from_slice(&[1, 2, 3]);
    let mut loader = Loader::new(4, 17);
    let image = FileImage {
        id: 4,
        data: log,
        hint: Some(vec![0xff; 3]),
    };
    assert_eq!(
        loader.replay_file(&image),
        Ok(FileReplay {
            drop_hint: false,
            truncate_to: Some(whole)
        })
    );
    assert_eq!(
        loader.writer,
        WriterState {
            current_file_id: 4,
            offset: whole,
            flushed_offset: 0,
            last_ts_flushed: 17,
            stale_bytes_count: rm.len() as u64,
        }
    );
    assert_eq!(loader.index.get(b"a"), None);
}

fn fresh(config: Config) -> Bitcask {
    Bitcask::loaded(config, Loader::new(1, 100), vec![1])
}

#[test]
fn bookkeeping_of_writes() {
    let mut bitcask = fresh(settings());
    let first = Bitcask::set_command("k", "v", 9);
    bitcask.append(&first, 27);
    assert_eq!(
        bitcask.lookup("k"),
        Some(IndexValue {
            file_id: 1,
            ts: 9,
            offset: 0,
            len: 27
        })
    );
    assert_eq!(bitcask.writer.offset, 27);
    assert_eq!(bitcask.writer.stale_bytes_count, 0);

    bitcask.append(&Bitcask::set_command("k", "vv", 10), 28);
    assert_eq!(bitcask.writer.stale_bytes_count, 27);
    assert_eq!(bitcask.check_remove("k"), Ok(()));
    let rm = Bitcask::remove_command("k", 11);
    assert_eq!(rm, Command::Rm { ts: 11, key: b"k" });
    bitcask.append(&rm, 22);
    assert_eq!(bitcask.writer.stale_bytes_count, 55);
    assert_eq!(bitcask.writer.offset, 77);
    assert_eq!(bitcask.lookup("k"), None);
    assert_eq!(bitcask.check_remove("k"), Err(KvsError::KeyNotFound));
}

#[test]
fn counters_have_a_limit() {
    let mut bitcask = fresh(settings());
    let command = Bitcask::set_command("k", "v", 9);
    assert!(bitcask.can_append(&command, 27));
    bitcask.writer.offset = u64::MAX - 26;
    assert!(!bitcask.can_append(&command, 27));
}

#[test]
fn policies_and_thresholds() {
    let mut bitcask = fresh(Config {
        durability_policy: DurabilityPolicy::SyncOnInterval,
        flush_threshold_millis: 50,
        file_size_threshold: 10,
        compaction_threshold: 5,
        ..settings()
    });
    assert!(!bitcask.handle_policy(149));
    assert!(bitcask.handle_policy(150));
    assert!(!bitcask.compaction_trigger());
    bitcask.writer.stale_bytes_count = 5;
    assert!(bitcask.compaction_trigger());
    bitcask.writer.offset = 9;
    assert_eq!(bitcask.rotate_if_full(), None);
    bitcask.writer.offset = 10;
    assert_eq!(bitcask.rotate_if_full(), Some(2));

    bitcask.policy_synced(150);
    assert_eq!(bitcask.writer.flushed_offset, 10);
    assert_eq!(bitcask.writer.last_ts_flushed, 150);
    bitcask.rotate_to(2, 160);
    assert_eq!(
        bitcask.writer,
        WriterState {
            current_file_id: 2,
            offset: 0,
            flushed_offset: 0,
            last_ts_flushed: 160,
            stale_bytes_count: 5,
        }
    );
    assert_eq!(bitcask.readers, [1, 2]);

    bitcask.config.durability_policy = DurabilityPolicy::SyncOnEveryPut;
    assert!(bitcask.handle_policy(0));
    bitcask.policy_synced(999);
    assert_eq!(bitcask.writer.last_ts_flushed, 160);
    bitcask.config.durability_policy = DurabilityPolicy::OsDecides;
    assert!(!bitcask.handle_policy(u64::MAX));
}

#[test]
fn values_are_read_out_of_records() {
    assert_eq!(
        Bitcask::read_value(put(1, b"k", "значение".as_bytes())),
        Ok(Some("значение".to_owned()))
    );
    let rm = Command::Rm { ts: 1, key: b"k" }.serialize();
    assert_eq!(Bitcask::read_value(rm), Ok(None));
    assert_eq!(
        Bitcask::read_value(put(1, b"k", &[b'a', 0xff])),
        Err(KvsError::Utf8(vec![b'a', 0xff]))
    );
    let mut bad = put(1, b"k", b"v");
    bad[9] ^= 1;
    assert_eq!(Bitcask::read_value(bad), Err(KvsError::Corruption));
    match Bitcask::read_value(Vec::new()) {
        Err(KvsError::Io(e)) => assert_eq!(e.kind(), ErrorKind::UnexpectedEof),
        other => panic!("expected Io, got {other:?}"),
    }
}

#[test]
fn merge_reserves_ids_below_the_next_active_file() {
    let mut bitcask = fresh(Config {
        file_size_threshold: 100,
        compaction_threshold: 10,
        ..settings()
    });
    assert!(bitcask.merge_sources().is_empty());
    bitcask.writer.stale_bytes_count = 10;
    assert!(bitcask.merge_sources().is_empty());
    bitcask.rotate_to(5, 0);
    bitcask.rotate_to(3, 0);
    assert_eq!(bitcask.merge_sources(), [1, 5]);

    let sources = vec![Source { id: 1, len: 250 }, Source { id: 2, len: 51 }];
    let merge = Merge::new(&bitcask, sources);
    // 301 / 100 + 2 ids behind the active file, and one more
    assert_eq!(merge.next_active, 3 + 5 + 1);
    assert_eq!(merge.init_stale_bytes, 10);
    assert_eq!(merge.next_action(), MergeAction::OpenOutput { id: 4 });
}

#[test]
fn merge_copies_only_what_keys_stand_at() {
    let old = put(1, b"a", b"old");
    let live = put(2, b"b", b"live");
    let mut data = old.clone();
    data.extend_from_slice(&live);
    data.extend_from_slice(&Command::Rm { ts: 3, key: b"c" }.serialize());

    let mut index = Index::empty();
    let here = IndexValue {
        file_id: 1,
        ts: 2,
        offset: old.len() as u64,
        len: live.len(),
    };
    index.insert(b"b", here);
    index.insert(
        b"a",
        IndexValue {
            file_id: 2,
            ts: 9,
            offset: 0,
            len: old.len(),
        },
    );

    let mut bitcask = fresh(settings());
    bitcask.index = index;
    let len = data.len() as u64;
    let mut merge = Merge::new(&bitcask, vec![Source { id: 1, len }]);
    merge.output_opened();
    assert_eq!(merge.next_action(), MergeAction::CopyFrom { id: 1, len });
    let copied = merge.copy_file(&bitcask.index, &data).unwrap();
    assert_eq!(copied.records, live);
    assert_eq!(copied.hints, hint(2, 2, 0, live.len(), b"b"));
    assert_eq!(
        merge.output,
        Some(MergeOutput {
            id: 2,
            written: live.len() as u64
        })
    );
    assert_eq!(merge.pending.len(), 1);
    assert_eq!(merge.pending[0].key, b"b");
    assert_eq!(merge.pending[0].previous_value, here);

    assert_eq!(merge.next_action(), MergeAction::FinishOutput { id: 2 });
    merge.finish_output(&mut bitcask);
    let there = IndexValue {
        file_id: 2,
        ts: 2,
        offset: 0,
        len: live.len(),
    };
    assert_eq!(bitcask.lookup("b"), Some(there));
    assert_eq!(bitcask.lookup("a").unwrap().ts, 9);
    assert_eq!(merge.next_action(), MergeAction::RemoveSource { id: 1 });
    merge.source_removed(&mut bitcask);
    assert_eq!(bitcask.readers, [2]);
    assert_eq!(merge.next_action(), MergeAction::Complete);
}

#[test]
fn merge_fails_on_damaged_files() {
    let live = put(2, b"b", b"live");
    for (data, expected) in [
        (live[..live.len() - 1].to_vec(), KvsError::Corruption),
        (
            {
                let mut bad = live.clone();
                bad[12] ^= 1;
                bad
            },
            KvsError::Corruption,
        ),
    ] {
        let bitcask = fresh(settings());
        let len = data.len() as u64;
        let mut merge = Merge::new(&bitcask, vec![Source { id: 1, len }]);
        merge.output_opened();
        match merge.copy_file(&bitcask.index, &data) {
            Err(e) => assert_eq!(e, expected),
            Ok(_) => panic!("damaged file was merged"),
        }
    }
}

#[test]
fn full_outputs_are_finished_between_sources() {
    let mut bitcask = fresh(Config {
        file_size_threshold: 20,
        ..settings()
    });
    let (a, b) = (put(1, b"a", b"1"), put(1, b"b", b"2"));
    for (id, key, bytes) in [(1, b"a", &a), (7, b"b", &b)] {
        bitcask.index.insert(
            key,
            IndexValue {
                file_id: id,
                ts: 1,
                offset: 0,
                len: bytes.len(),
            },
        );
    }
    let sources = vec![
        Source {
            id: 1,
            len: a.len() as u64,
        },
        Source {
            id: 7,
            len: b.len() as u64,
        },
    ];
    let mut merge = Merge::new(&bitcask, sources);
    let mut seen = Vec::new();
    loop {
        let action = merge.next_action();
        match action {
            MergeAction::OpenOutput { id } => {
                seen.push(format!("open {id}"));
                merge.output_opened();
            }
            MergeAction::CopyFrom { id, .. } => {
                seen.push(format!("copy {id}"));
                let data = if id == 1 { &a } else { &b };
                merge.copy_file(&bitcask.index, data).unwrap();
            }
            MergeAction::FinishOutput { id } => {
                seen.push(format!("finish {id}"));
                merge.finish_output(&mut bitcask);
            }
            MergeAction::RemoveSource { id } => {
                seen.push(format!("remove {id}"));
                merge.source_removed(&mut bitcask);
            }
            MergeAction::Complete => break,
        }
    }
    assert_eq!(
        seen,
        ["open 2", "copy 1", "finish 2", "open 3", "copy 7", "finish 3", "remove 1", "remove 7"]
    );
}
