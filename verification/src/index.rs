//! The in-memory index: for each key, where its latest record stands.
use std::collections::HashMap;
use vstd::prelude::*;

use crate::bytes_util::{push_bytes, same_bytes};
use crate::index_value::IndexValue;

verus! {

broadcast use vstd::std_specs::hash::group_hash_axioms;

/// The number of buckets that the index is split into.
pub const INDEX_BUCKETS_NUM: usize = 16;

/// Where the hash of a key starts.
pub const FNV_OFFSET: u64 = 0xcbf2_9ce4_8422_2325;

/// What the hash of a key is multiplied by for each byte.
pub const FNV_PRIME: u64 = 0x0000_0100_0000_01b3;

/// The FNV-1a hash of a key.
pub open spec fn fnv1a(key: Seq<u8>) -> u64
    decreases key.len(),
{
    if key.len() == 0 {
        FNV_OFFSET
    } else {
        (fnv1a(key.drop_last()) ^ (key.last() as u64)).wrapping_mul(FNV_PRIME)
    }
}

/// The bucket of a key.
pub open spec fn bucket_of(key: Seq<u8>) -> int {
    (((fnv1a(key) >> 32) ^ fnv1a(key)) % 16) as int
}

/// Computes the FNV-1a hash of a key.
pub fn hash_key(key: &[u8]) -> (hash: u64)
    ensures
        hash == fnv1a(key@),
{
    let mut hash: u64 = FNV_OFFSET;
    let mut i: usize = 0;
    while i < key.len()
        invariant
            i <= key@.len(),
            hash == fnv1a(key@.take(i as int)),
        decreases key@.len() - i,
    {
        assert(key@.take(i + 1).drop_last() =~= key@.take(i as int));
        hash = (hash ^ (key[i] as u64)).wrapping_mul(FNV_PRIME);
        i += 1;
    }
    assert(key@.take(i as int) =~= key@);
    hash
}

/// A key and where its latest record stands.
#[derive(Debug)]
pub struct Slot {
    pub key: Vec<u8>,
    pub value: IndexValue,
}

/// What a chain of slots holds for a key: the value of the first slot that
/// has it.
pub open spec fn chain_get(chain: Seq<Slot>, key: Seq<u8>) -> Option<IndexValue>
    decreases chain.len(),
{
    if chain.len() == 0 {
        None
    } else if chain[0].key@ == key {
        Some(chain[0].value)
    } else {
        chain_get(chain.skip(1), key)
    }
}

proof fn lemma_chain_get_skip(chain: Seq<Slot>, i: int, key: Seq<u8>)
    requires
        0 <= i <= chain.len(),
        forall|j: int| 0 <= j < i ==> (#[trigger] chain[j]).key@ != key,
    ensures
        chain_get(chain, key) == chain_get(chain.skip(i), key),
    decreases i,
{
    if i == 0 {
        assert(chain.skip(0) =~= chain);
    } else {
        assert(chain[0].key@ != key);
        assert forall|j: int| 0 <= j < i - 1 implies (#[trigger] chain.skip(1)[j]).key@ != key by {
            assert(chain.skip(1)[j] == chain[j + 1]);
        }
        lemma_chain_get_skip(chain.skip(1), i - 1, key);
        assert(chain.skip(1).skip(i - 1) =~= chain.skip(i));
    }
}

proof fn lemma_chain_remove(chain: Seq<Slot>, i: int, key: Seq<u8>)
    requires
        0 <= i < chain.len(),
        chain[i].key@ != key,
    ensures
        chain_get(chain.remove(i), key) == chain_get(chain, key),
    decreases i,
{
    if i == 0 {
        assert(chain.remove(0) =~= chain.skip(1));
    } else {
        assert(chain.remove(i).skip(1) =~= chain.skip(1).remove(i - 1));
        lemma_chain_remove(chain.skip(1), i - 1, key);
    }
}

proof fn lemma_chain_push(chain: Seq<Slot>, slot: Slot, key: Seq<u8>)
    ensures
        chain_get(chain.push(slot), key) == (match chain_get(chain, key) {
            Some(value) => Some(value),
            None => if slot.key@ == key {
                Some(slot.value)
            } else {
                None
            },
        }),
    decreases chain.len(),
{
    if chain.len() == 0 {
        assert(chain_get(chain.push(slot).skip(1), key) is None);
    } else {
        assert(chain.push(slot).skip(1) =~= chain.skip(1).push(slot));
        lemma_chain_push(chain.skip(1), slot, key);
    }
}

/// Finds the value of a key in a chain.
fn find_in_chain<'a>(chain: &'a Vec<Slot>, key: &[u8]) -> (res: Option<&'a IndexValue>)
    ensures
        match chain_get(chain@, key@) {
            Some(value) => res is Some && *res->0 == value,
            None => res is None,
        },
{
    let mut i: usize = 0;
    while i < chain.len()
        invariant
            i <= chain@.len(),
            forall|j: int| 0 <= j < i ==> (#[trigger] chain@[j]).key@ != key@,
        decreases chain@.len() - i,
    {
        if same_bytes(chain[i].key.as_slice(), key) {
            proof {
                lemma_chain_get_skip(chain@, i as int, key@);
            }
            return Some(&chain[i].value);
        }
        i += 1;
    }
    proof {
        lemma_chain_get_skip(chain@, i as int, key@);
    }
    None
}

/// Takes a key out of a chain.
fn take_from_chain(chain: &mut Vec<Slot>, key: &[u8]) -> (res: Option<IndexValue>)
    ensures
        res == chain_get(old(chain)@, key@),
        chain_get(final(chain)@, key@) is None,
        forall|k: Seq<u8>|
            k != key@ ==> #[trigger] chain_get(final(chain)@, k) == chain_get(old(chain)@, k),
{
    let mut found: Option<IndexValue> = None;
    let mut i: usize = 0;
    while i < chain.len()
        invariant
            i <= chain@.len(),
            forall|j: int| 0 <= j < i ==> (#[trigger] chain@[j]).key@ != key@,
            forall|k: Seq<u8>|
                k != key@ ==> #[trigger] chain_get(chain@, k) == chain_get(old(chain)@, k),
            found is Some ==> found == chain_get(old(chain)@, key@),
            found is None ==> chain_get(chain@, key@) == chain_get(old(chain)@, key@),
        decreases chain@.len() - i,
    {
        if same_bytes(chain[i].key.as_slice(), key) {
            proof {
                lemma_chain_get_skip(chain@, i as int, key@);
                assert forall|k: Seq<u8>| k != key@ implies #[trigger] chain_get(
                    chain@.remove(i as int),
                    k,
                ) == chain_get(old(chain)@, k) by {
                    lemma_chain_remove(chain@, i as int, k);
                }
            }
            let slot = chain.remove(i);
            if found.is_none() {
                found = Some(slot.value);
            }
        } else {
            i += 1;
        }
    }
    proof {
        lemma_chain_get_skip(chain@, i as int, key@);
    }
    found
}

/// One bucket of the index: keys, each with where its latest record stands.
/// Keys with one hash share a chain.
#[derive(Debug)]
pub struct Bucket {
    table: HashMap<u64, Vec<Slot>>,
}

impl Bucket {
    /// What the bucket holds for a key.
    pub closed spec fn find(&self, key: Seq<u8>) -> Option<IndexValue> {
        if self.table@.contains_key(fnv1a(key)) {
            chain_get(self.table@[fnv1a(key)]@, key)
        } else {
            None
        }
    }
}

impl View for Bucket {
    type V = Map<Seq<u8>, IndexValue>;

    open spec fn view(&self) -> Map<Seq<u8>, IndexValue> {
        Map::new(|key: Seq<u8>| self.find(key) is Some, |key: Seq<u8>| self.find(key)->0)
    }
}

/// What a map holds for a key.
pub open spec fn map_get(map: Map<Seq<u8>, IndexValue>, key: Seq<u8>) -> Option<IndexValue> {
    if map.contains_key(key) {
        Some(map[key])
    } else {
        None
    }
}

impl Bucket {
    /// An empty bucket.
    pub fn new() -> (bucket: Bucket)
        ensures
            bucket@ == Map::<Seq<u8>, IndexValue>::empty(),
    {
        let bucket = Bucket { table: HashMap::new() };
        assert(bucket@ =~= Map::<Seq<u8>, IndexValue>::empty());
        bucket
    }

    /// Where the latest record of a key stands.
    pub fn get(&self, key: &[u8]) -> (value: Option<&IndexValue>)
        ensures
            match map_get(self@, key@) {
                Some(v) => value is Some && *value->0 == v,
                None => value is None,
            },
    {
        match self.table.get(&hash_key(key)) {
            Some(chain) => find_in_chain(chain, key),
            None => None,
        }
    }

    /// Whether a key has an entry.
    pub fn contains_key(&self, key: &[u8]) -> (found: bool)
        ensures
            found == self@.contains_key(key@),
    {
        self.get(key).is_some()
    }

    /// Takes the chain of a key out, less the key itself.
    fn detach(&mut self, key: &[u8]) -> (res: (Vec<Slot>, Option<IndexValue>))
        ensures
            !final(self).table@.contains_key(fnv1a(key@)),
            forall|h: u64|
                h != fnv1a(key@) ==> (#[trigger] final(self).table@.contains_key(h) == old(
                    self,
                ).table@.contains_key(h)) && final(self).table@[h] == old(self).table@[h],
            res.1 == old(self).find(key@),
            chain_get(res.0@, key@) is None,
            forall|k: Seq<u8>|
                k != key@ && fnv1a(k) == fnv1a(key@) ==> #[trigger] chain_get(res.0@, k) == old(
                    self,
                ).find(k),
    {
        match self.table.remove(&hash_key(key)) {
            Some(chain) => {
                let mut rest = chain;
                let found = take_from_chain(&mut rest, key);
                (rest, found)
            },
            None => (Vec::new(), None),
        }
    }

    /// Puts an entry in, and gives back the one that the key had.
    pub fn insert(&mut self, key: &[u8], value: IndexValue) -> (previous: Option<IndexValue>)
        ensures
            previous == map_get(old(self)@, key@),
            final(self)@ == old(self)@.insert(key@, value),
    {
        let (rest, previous) = self.detach(key);
        let mut chain = rest;
        let mut owned: Vec<u8> = Vec::new();
        push_bytes(&mut owned, key);
        assert(owned@ =~= key@);
        let slot = Slot { key: owned, value };
        proof {
            assert forall|k: Seq<u8>| true implies #[trigger] chain_get(chain@.push(slot), k) == (
            match chain_get(chain@, k) {
                Some(value) => Some(value),
                None => if slot.key@ == k {
                    Some(slot.value)
                } else {
                    None
                },
            }) by {
                lemma_chain_push(chain@, slot, k);
            }
        }
        chain.push(slot);
        self.table.insert(hash_key(key), chain);
        assert forall|k: Seq<u8>| #[trigger] self.find(k) == (if k == key@ {
            Some(value)
        } else {
            old(self).find(k)
        }) by {}
        assert(self@ =~= old(self)@.insert(key@, value));
        previous
    }

    /// Takes an entry out, and gives it back.
    pub fn remove(&mut self, key: &[u8]) -> (previous: Option<IndexValue>)
        ensures
            previous == map_get(old(self)@, key@),
            final(self)@ == old(self)@.remove(key@),
    {
        let (rest, previous) = self.detach(key);
        let ghost chain = rest@;
        if rest.len() > 0 {
            self.table.insert(hash_key(key), rest);
        }
        assert forall|k: Seq<u8>| #[trigger] self.find(k) == (if k == key@ {
            None
        } else {
            old(self).find(k)
        }) by {
            if fnv1a(k) == fnv1a(key@) {
                assert(self.find(k) == chain_get(chain, k));
            }
        }
        assert(self@ =~= old(self)@.remove(key@));
        previous
    }
}

/// The index, split into buckets by the hash of the key.
#[derive(Debug)]
pub struct Index {
    pub index: [Bucket; INDEX_BUCKETS_NUM],
}

impl Index {
    /// The bucket that a key goes to.
    pub open spec fn bucket(&self, key: Seq<u8>) -> Bucket {
        self.index@[bucket_of(key)]
    }
}

impl View for Index {
    type V = Map<Seq<u8>, IndexValue>;

    /// What the index holds: for each key, what the bucket of that key holds.
    open spec fn view(&self) -> Map<Seq<u8>, IndexValue> {
        Map::new(
            |key: Seq<u8>| self.bucket(key)@.contains_key(key),
            |key: Seq<u8>| self.bucket(key)@[key],
        )
    }
}

impl Index {
    /// An index made of its buckets.
    pub fn from(arr: [Bucket; INDEX_BUCKETS_NUM]) -> (res: Self)
        ensures
            res.index == arr,
    {
        Index { index: arr }
    }

    /// An index without entries.
    pub fn empty() -> (res: Self)
        ensures
            res@ == Map::<Seq<u8>, IndexValue>::empty(),
    {
        let arr: [Bucket; INDEX_BUCKETS_NUM] = [
            Bucket::new(),
            Bucket::new(),
            Bucket::new(),
            Bucket::new(),
            Bucket::new(),
            Bucket::new(),
            Bucket::new(),
            Bucket::new(),
            Bucket::new(),
            Bucket::new(),
            Bucket::new(),
            Bucket::new(),
            Bucket::new(),
            Bucket::new(),
            Bucket::new(),
            Bucket::new(),
        ];
        let res = Index::from(arr);
        assert forall|key: Seq<u8>| !(#[trigger] res@.contains_key(key)) by {
            law_bucket_in_range(key);
            assert(res.bucket(key)@ == Map::<Seq<u8>, IndexValue>::empty());
        }
        assert(res@ =~= Map::<Seq<u8>, IndexValue>::empty());
        res
    }

    /// The bucket of a key.
    pub fn get_bucket(key: &[u8]) -> (bucket: usize)
        ensures
            bucket == bucket_of(key@),
            bucket < INDEX_BUCKETS_NUM,
    {
        let hash: u64 = hash_key(key);
        (((hash >> 32) ^ hash) % 16) as usize
    }

    /// The bucket of a key, to be read.
    pub fn read_access(&self, key: &[u8]) -> (bucket: &Bucket)
        ensures
            *bucket == self.bucket(key@),
    {
        &self.index[Index::get_bucket(key)]
    }

    /// The bucket of a key, to be changed.
    pub fn write_access(&mut self, key: &[u8]) -> (bucket: &mut Bucket)
        ensures
            *bucket == old(self).bucket(key@),
            final(self).index@ == old(self).index@.update(bucket_of(key@), *final(bucket)),
    {
        let i: usize = Index::get_bucket(key);
        &mut self.index[i]
    }

    /// Where the latest record of a key stands.
    pub fn get(&self, key: &[u8]) -> (value: Option<&IndexValue>)
        ensures
            match map_get(self@, key@) {
                Some(v) => value is Some && *value->0 == v,
                None => value is None,
            },
    {
        self.read_access(key).get(key)
    }

    /// Puts an entry in, and gives back the one that the key had.
    pub fn insert(&mut self, key: &[u8], value: IndexValue) -> (previous: Option<IndexValue>)
        ensures
            previous == map_get(old(self)@, key@),
            final(self)@ == old(self)@.insert(key@, value),
    {
        let previous = self.write_access(key).insert(key, value);
        proof {
            law_bucket_in_range(key@);
            assert forall|k: Seq<u8>| #[trigger] self.bucket(k) == (if bucket_of(k) == bucket_of(
                key@,
            ) {
                self.bucket(key@)
            } else {
                old(self).bucket(k)
            }) by {
                law_bucket_in_range(k);
            }
            assert(self@ =~= old(self)@.insert(key@, value));
        }
        previous
    }

    /// Takes an entry out, and gives it back.
    pub fn remove(&mut self, key: &[u8]) -> (previous: Option<IndexValue>)
        ensures
            previous == map_get(old(self)@, key@),
            final(self)@ == old(self)@.remove(key@),
    {
        let previous = self.write_access(key).remove(key);
        proof {
            law_bucket_in_range(key@);
            assert forall|k: Seq<u8>| #[trigger] self.bucket(k) == (if bucket_of(k) == bucket_of(
                key@,
            ) {
                self.bucket(key@)
            } else {
                old(self).bucket(k)
            }) by {
                law_bucket_in_range(k);
            }
            assert(self@ =~= old(self)@.remove(key@));
        }
        previous
    }
}

/// Every key has a bucket.
pub proof fn law_bucket_in_range(key: Seq<u8>)
    ensures
        0 <= bucket_of(key) < INDEX_BUCKETS_NUM,
{
}

/// Hashes that differ stay different, whatever byte comes next.
proof fn lemma_hash_step(g: u64, h: u64, x: u8, y: u8)
    requires
        g ^ (x as u64) != h ^ (y as u64),
    ensures
        (g ^ (x as u64)).wrapping_mul(FNV_PRIME) != (h ^ (y as u64)).wrapping_mul(FNV_PRIME),
{
    let (a, b) = (g ^ (x as u64), h ^ (y as u64));
    let (p, q) = (a.wrapping_mul(FNV_PRIME), b.wrapping_mul(FNV_PRIME));
    // the inverse of the prime, modulo 2 to the power of 64
    let inverse: u64 = 0xce965057aff6957b;
    lemma_wrapping(a);
    lemma_wrapping(b);
    if p == q {
        let (m, n) = (mul64(p, inverse), mul64(q, inverse));
        assert(m == a);
        assert(n == b);
    }
}

/// The product of two numbers, modulo 2 to the power of 64.
spec fn mul64(a: u64, b: u64) -> u64 {
    ((a as int * b as int) % 0x1_0000_0000_0000_0000) as u64
}

/// Multiplying by the prime is undone by multiplying by its inverse.
proof fn lemma_wrapping(a: u64)
    ensures
        mul64(a.wrapping_mul(FNV_PRIME), 0xce965057aff6957b) == a,
{
    let modulus = 0x1_0000_0000_0000_0000int;
    let prime = 0x0000_0100_0000_01b3int;
    let inverse = 0xce965057aff6957bint;
    let product = a as int * prime;
    let w = a.wrapping_mul(FNV_PRIME) as int;
    assert(w == product % modulus);
    let k = product / modulus;
    assert(product == k * modulus + w) by (nonlinear_arith)
        requires
            w == product % modulus,
            k == product / modulus,
            modulus == 0x1_0000_0000_0000_0000int,
    ;
    // prime * inverse is one more than a multiple of the modulus
    let times = (prime * inverse - 1) / modulus;
    assert(prime * inverse == times * modulus + 1);
    assert(w * inverse == (a as int * times - k * inverse) * modulus + a as int)
        by (nonlinear_arith)
        requires
            product == a as int * prime,
            product == k * modulus + w,
            prime * inverse == times * modulus + 1,
    ;
    assert((w * inverse) % modulus == a as int) by (nonlinear_arith)
        requires
            w * inverse == (a as int * times - k * inverse) * modulus + a as int,
            modulus == 0x1_0000_0000_0000_0000int,
            0 <= (a as int) < modulus,
    ;
}

/// The hash of a key depends on every one of its bytes: keys that differ in one
/// byte have different hashes.
pub proof fn law_changed_key(key: Seq<u8>, i: int, b: u8)
    requires
        0 <= i < key.len(),
        key[i] != b,
    ensures
        fnv1a(key.update(i, b)) != fnv1a(key),
    decreases key.len(),
{
    let changed = key.update(i, b);
    let (g, h) = (fnv1a(changed.drop_last()), fnv1a(key.drop_last()));
    let (x, y) = (changed.last(), key.last());
    let (wide_x, wide_y) = (x as u64, y as u64);
    if i == key.len() - 1 {
        assert(changed.drop_last() =~= key.drop_last());
        assert(g ^ wide_x != g ^ wide_y) by (bit_vector)
            requires
                wide_x != wide_y,
        ;
    } else {
        assert(changed.drop_last() =~= key.drop_last().update(i, b));
        law_changed_key(key.drop_last(), i, b);
        assert(g ^ wide_x != h ^ wide_x) by (bit_vector)
            requires
                g != h,
        ;
    }
    lemma_hash_step(g, h, x, y);
}

/// The hash of a key, byte by byte: it starts with the offset basis; each byte
/// is put into its lowest bits, and the whole multiplied by the prime, modulo 2
/// to the power of 64.
pub proof fn law_fnv1a(key: Seq<u8>, b: u8)
    ensures
        fnv1a(Seq::empty()) == 14695981039346656037u64,
        fnv1a(key.push(b)) == ((fnv1a(key) ^ (b as u64)) as int * 1099511628211)
            % 0x1_0000_0000_0000_0000,
{
    assert(key.push(b).drop_last() =~= key);
}

/// The bucket of a key is told by the lowest four bits of the two halves of its
/// hash, for every key.
pub proof fn law_bucket(key: &[u8], hash: u64, bucket: usize)
    requires
        call_ensures(hash_key, (key,), hash),
        call_ensures(Index::get_bucket, (key,), bucket),
    ensures
        hash == fnv1a(key@),
        bucket == ((hash >> 32) ^ hash) % 16,
        bucket < 16,
{
}

} // verus!
