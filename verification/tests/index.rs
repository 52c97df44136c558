use kvs::index::{hash_key, Bucket, Index, INDEX_BUCKETS_NUM};
use kvs::index_value::IndexValue;

fn value(n: u64) -> IndexValue {
    IndexValue {
        file_id: n,
        ts: n + 1,
        offset: n + 2,
        len: n as usize + 3,
    }
}

#[test]
fn get_bucket_is_deterministic_and_in_range() {
    for i in 0..1_000 {
        let key = format!("key{i}");
        let bucket = Index::get_bucket(key.as_bytes());
        assert!(bucket < INDEX_BUCKETS_NUM);
        assert_eq!(bucket, Index::get_bucket(key.as_bytes()));
    }
    assert!(Index::get_bucket(b"") < INDEX_BUCKETS_NUM);
}

#[test]
fn buckets_are_reasonably_uniform_for_typical_key_patterns() {
    for pattern in ["key", "filler", "user:profile:", ""] {
        let mut counts = [0usize; INDEX_BUCKETS_NUM];
        let total = 10_000;
        for i in 0..total {
            let key = format!("{pattern}{i}");
            counts[Index::get_bucket(key.as_bytes())] += 1;
        }

        let mean = total / INDEX_BUCKETS_NUM;
        for (bucket, &count) in counts.iter().enumerate() {
            assert!(
                count >= mean / 2 && count <= mean * 2,
                "pattern {pattern:?}: bucket {bucket} got {count} of {total} keys (mean {mean})"
            );
        }
    }
}

#[test]
fn hash_is_fnv_1a() {
    assert_eq!(hash_key(b""), 0xcbf2_9ce4_8422_2325);
    assert_eq!(hash_key(b"a"), 0xaf63_dc4c_8601_ec8c);
    assert_eq!(hash_key(b"foobar"), 0x8594_4171_f739_67e8);
    let hash = hash_key(b"foobar");
    assert_eq!(
        Index::get_bucket(b"foobar"),
        ((hash >> 32) ^ hash) as usize % 16
    );
}

#[test]
fn bucket_holds_what_was_put_in() {
    let mut bucket = Bucket::new();
    assert_eq!(bucket.get(b"a"), None);
    assert_eq!(bucket.insert(b"a", value(1)), None);
    assert_eq!(bucket.insert(b"b", value(2)), None);
    assert_eq!(bucket.insert(b"a", value(3)), Some(value(1)));
    assert_eq!(bucket.get(b"a"), Some(&value(3)));
    assert_eq!(bucket.get(b"b"), Some(&value(2)));
    assert!(bucket.contains_key(b"a"));
    assert_eq!(bucket.remove(b"a"), Some(value(3)));
    assert_eq!(bucket.remove(b"a"), None);
    assert!(!bucket.contains_key(b"a"));
    assert_eq!(bucket.get(b"b"), Some(&value(2)));
}

#[test]
fn index_spreads_keys_over_its_buckets() {
    let mut index = Index::empty();
    for i in 0..100u64 {
        let key = format!("key{i}");
        assert_eq!(index.insert(key.as_bytes(), value(i)), None);
    }
    for i in 0..100u64 {
        let key = format!("key{i}");
        assert_eq!(index.get(key.as_bytes()), Some(&value(i)));
        assert_eq!(index.read_access(key.as_bytes()).get(key.as_bytes()), Some(&value(i)));
    }
    index.write_access(b"key7").insert(b"key7", value(70));
    assert_eq!(index.get(b"key7"), Some(&value(70)));
    assert_eq!(index.remove(b"key7"), Some(value(70)));
    assert_eq!(index.get(b"key7"), None);
    assert_eq!(index.get(b"key8"), Some(&value(8)));
}

#[test]
fn index_from_buckets() {
    let mut buckets: [Bucket; INDEX_BUCKETS_NUM] = std::array::from_fn(|_| Bucket::new());
    buckets[Index::get_bucket(b"k")].insert(b"k", value(5));
    let index = Index::from(buckets);
    assert_eq!(index.get(b"k"), Some(&value(5)));
    assert_eq!(index.get(b"j"), None);
}
