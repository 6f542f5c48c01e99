use lun::cache::{
    gc, max_entries_from_bytes, stats, Cache, CacheWriter, HashCache, Key, KeyHash, NopCache,
    DEFAULT_MAX_CACHE_SIZE_BYTES,
};
use lun::file::{Stamp, Xxhash};
use lun::format::{
    current_version, deserialize_version_header, read_record, serialize_version_header,
    HEADER_SIZE, RECORD_SIZE,
};
use lun::tool;

fn key(n: u128) -> Key {
    Key::new(Stamp(Xxhash(n)), tool::Stamp(Xxhash(7)))
}

fn record(counter: u16, hash: u128) -> Vec<u8> {
    let mut r = counter.to_le_bytes().to_vec();
    r.extend_from_slice(&hash.to_le_bytes());
    r
}

fn file_of(records: &[(u16, u128)]) -> Vec<u8> {
    let mut f = vec![0, 0, 1, 0, 0, 0];
    for (c, h) in records {
        f.extend_from_slice(&record(*c, *h));
    }
    f
}

#[test]
fn sizes() {
    assert_eq!(HEADER_SIZE, 6);
    assert_eq!(RECORD_SIZE, 18);
    assert_eq!(DEFAULT_MAX_CACHE_SIZE_BYTES, (2 << 17) * 18);
    assert_eq!(max_entries_from_bytes(0), 0);
    assert_eq!(max_entries_from_bytes(17), 0);
    assert_eq!(max_entries_from_bytes(18), 1);
    assert_eq!(max_entries_from_bytes(37), 2);
}

#[test]
fn header_is_little_endian() {
    assert_eq!(serialize_version_header(1, 2, 3), [1, 0, 2, 0, 3, 0]);
    assert_eq!(serialize_version_header(0x0102, 0, 0xffff), [2, 1, 0, 0, 0xff, 0xff]);
    assert_eq!(deserialize_version_header(&[1, 0, 2, 0, 3, 0]), Some((1, 2, 3)));
    assert_eq!(deserialize_version_header(&[2, 1, 0, 0, 0xff, 0xff, 9]), Some((0x0102, 0, 0xffff)));
    assert_eq!(deserialize_version_header(&[1, 0, 2, 0, 3]), None);
    assert_eq!(deserialize_version_header(&[]), None);
    assert_eq!(current_version(), (0, 1, 0));
}

#[test]
fn records_are_read_in_place() {
    let body: Vec<u8> = [record(3, 0x0102), record(0, u128::MAX)].concat();
    assert_eq!(read_record(&body, 0), (3, 0x0102));
    assert_eq!(read_record(&body, 1), (0, u128::MAX));
}

#[test]
fn usable_files() {
    assert!(HashCache::cache_ok(&file_of(&[])));
    assert!(HashCache::cache_ok(&file_of(&[(1, 2), (3, 4)])));
    // too short for a header
    assert!(!HashCache::cache_ok(&[0, 0, 1, 0, 0]));
    // another version
    assert!(!HashCache::cache_ok(&[0, 0, 2, 0, 0, 0]));
    assert!(!HashCache::cache_ok(&[1, 0, 1, 0, 0, 0]));
    // a record cut short
    let mut cut = file_of(&[(1, 2)]);
    cut.pop();
    assert!(!HashCache::cache_ok(&cut));
}

#[test]
fn empty_cache_writes_only_the_header() {
    let mut cache = HashCache::new("cache".to_string(), 10);
    let (content, full) = cache.serialize();
    assert_eq!(content, vec![0, 0, 1, 0, 0, 0]);
    assert!(!full);
    let flushed = cache.flush();
    assert_eq!(flushed.content, Some(vec![0, 0, 1, 0, 0, 0]));
    assert!(!flushed.cache_full);
}

#[test]
fn wrong_version_is_discarded() {
    let mut bytes = file_of(&[(1, 2)]);
    bytes[2] = 9;
    let loaded = HashCache::from_file("cache".to_string(), Some(&bytes), None);
    assert!(loaded.discard);
    assert!(loaded.cache.hashes.is_empty());
}

#[test]
fn budget_sets_the_limit() {
    let loaded = HashCache::from_file("cache".to_string(), None, Some(100));
    assert_eq!(loaded.cache.max_entries, 5);
    let loaded = HashCache::from_file("cache".to_string(), None, None);
    assert_eq!(loaded.cache.max_entries, 2 << 17);
    assert_eq!(loaded.cache.entries_added, 0);
}

#[test]
fn flush_ages_and_orders() {
    let bytes = file_of(&[(5, 30), (0, 20), (5, 10), (65535, 1)]);
    let mut loaded = HashCache::from_file("cache".to_string(), Some(&bytes), None);
    assert!(!loaded.discard);
    assert_eq!(loaded.cache.hashes.len(), 4);
    let (content, full) = loaded.cache.serialize();
    assert!(!full);
    // every counter one higher, except the one at the top; by counter, then
    // by hash
    assert_eq!(content, file_of(&[(1, 20), (6, 10), (6, 30), (65535, 1)]));
    // the records in memory stay as they were
    assert_eq!(loaded.cache.hashes[&20], 0);
    assert_eq!(loaded.cache.hashes[&1], 65535);
}

#[test]
fn flush_drops_the_oldest() {
    let bytes = file_of(&[(0, 4), (0, 3), (1, 2), (2, 1)]);
    let mut loaded = HashCache::from_file("cache".to_string(), Some(&bytes), Some(2 * 18 + 17));
    assert_eq!(loaded.cache.max_entries, 2);
    let flushed = loaded.cache.flush();
    assert!(flushed.cache_full);
    let content = flushed.content.unwrap();
    assert_eq!(content, file_of(&[(1, 3), (1, 4)]));
    assert!(content.len() <= HEADER_SIZE + 2 * RECORD_SIZE);
}

#[test]
fn flush_is_full_only_when_something_is_dropped() {
    let bytes = file_of(&[(0, 4), (0, 3)]);
    let mut loaded = HashCache::from_file("cache".to_string(), Some(&bytes), Some(36));
    assert!(!loaded.cache.flush().cache_full);
    let mut none = HashCache::new("cache".to_string(), 0);
    none.done_hash(KeyHash(Xxhash(1)));
    let flushed = none.flush();
    assert!(flushed.cache_full);
    assert_eq!(flushed.content, Some(file_of(&[])));
}

#[test]
fn later_record_wins() {
    let bytes = file_of(&[(1, 9), (7, 9)]);
    let loaded = HashCache::from_file("cache".to_string(), Some(&bytes), None);
    assert_eq!(loaded.cache.hashes.len(), 1);
    assert_eq!(loaded.cache.hashes[&9], 7);
}

#[test]
fn load_after_write_ages_by_one() {
    let mut cache = HashCache::new("cache".to_string(), 100);
    for n in [3u128, 1, 2] {
        cache.done_hash(KeyHash(Xxhash(n)));
    }
    cache.hashes.insert(50, 65535);
    cache.hashes.insert(51, 65534);
    let written = cache.flush().content.unwrap();
    let loaded = HashCache::from_file("cache".to_string(), Some(&written), None).cache;
    assert_eq!(loaded.hashes.len(), 5);
    for n in [1u128, 2, 3] {
        assert_eq!(loaded.hashes[&n], 1);
    }
    assert_eq!(loaded.hashes[&50], 65535);
    assert_eq!(loaded.hashes[&51], 65535);
}

#[test]
fn write_after_load_reproduces_a_saturated_file() {
    let bytes = file_of(&[(65535, 1), (65535, 2), (65535, 900)]);
    let mut loaded = HashCache::from_file("cache".to_string(), Some(&bytes), None).cache;
    assert_eq!(loaded.flush().content.unwrap(), bytes);
}

#[test]
fn write_after_load_keeps_the_order_of_a_young_file() {
    let bytes = file_of(&[(0, 8), (0, 9), (3, 1), (4, 0)]);
    let mut loaded = HashCache::from_file("cache".to_string(), Some(&bytes), None).cache;
    assert_eq!(loaded.flush().content.unwrap(), file_of(&[(1, 8), (1, 9), (4, 1), (5, 0)]));
}

#[test]
fn same_records_same_bytes() {
    let mut a = HashCache::new("a".to_string(), 10);
    let mut b = HashCache::new("b".to_string(), 10);
    for n in 0..8u128 {
        a.done_hash(KeyHash(Xxhash(n * 1000)));
    }
    for n in (0..8u128).rev() {
        b.done_hash(KeyHash(Xxhash(n * 1000)));
    }
    assert_eq!(a.serialize().0, b.serialize().0);
}

#[test]
fn needed_touches() {
    let bytes = file_of(&[(5, KeyHash::from(&key(1)).0 .0)]);
    let mut cache = HashCache::from_file("cache".to_string(), Some(&bytes), None).cache;
    assert!(cache.knows(&key(1)));
    assert!(!cache.knows(&key(2)));
    assert_eq!(cache.hashes.values().copied().collect::<Vec<_>>(), vec![5]);
    assert!(!cache.needed(&key(1)));
    assert_eq!(cache.hashes.values().copied().collect::<Vec<_>>(), vec![0]);
    assert!(cache.needed(&key(2)));
    assert_eq!(cache.hashes.len(), 1);
    assert_eq!(cache.entries_added, 0);
}

#[test]
fn done_records_with_counter_zero() {
    let mut cache = HashCache::new("cache".to_string(), 10);
    cache.done(&key(1));
    cache.done_hash(KeyHash(Xxhash(77)));
    assert_eq!(cache.entries_added, 2);
    assert_eq!(cache.hashes[&KeyHash::from(&key(1)).0 .0], 0);
    assert_eq!(cache.hashes[&77], 0);
    assert!(!cache.needed(&key(1)));
}

#[test]
fn nop_cache_remembers_nothing() {
    let mut cache = NopCache;
    assert!(cache.needed(&key(1)));
    cache.done(&key(1));
    cache.done_hash(KeyHash(Xxhash(5)));
    assert!(cache.needed(&key(1)));
    assert!(!cache.knows(&key(1)));
    let flushed = cache.flush();
    assert_eq!(flushed.content, None);
    assert!(!flushed.cache_full);
}

#[test]
fn key_hash_mixes_both_stamps() {
    let a = KeyHash::from(&Key::new(Stamp(Xxhash(1)), tool::Stamp(Xxhash(2))));
    let b = KeyHash::from(&Key::new(Stamp(Xxhash(2)), tool::Stamp(Xxhash(1))));
    let c = KeyHash::from(&Key::new(Stamp(Xxhash(1)), tool::Stamp(Xxhash(2))));
    assert_eq!(a, c);
    assert_ne!(a, b);
    let mut bytes = 1u128.to_le_bytes().to_vec();
    bytes.extend_from_slice(&2u128.to_le_bytes());
    assert_eq!(a.0, lun::file::compute_hash(&bytes));
}

#[test]
fn figures() {
    let bytes = file_of(&[(0, 1), (0, 2), (3, 3), (1, 4), (0, 5)]);
    let cache = HashCache::from_file("cache".to_string(), Some(&bytes), Some(180)).cache;
    let st = stats(&cache);
    assert_eq!(st.records, 5);
    assert_eq!(st.total_size_bytes, 6 + 5 * 18);
    assert_eq!(st.max_records, 10);
    assert_eq!(st.max_size_bytes, 6 + 10 * 18);
    assert_eq!(st.percentage_used, 50);
    assert_eq!(st.records_most_recent_run, 3);
    assert_eq!(st.runs_represented, 4);
    assert_eq!(st.avg_records_per_run, 1);
}

#[test]
fn figures_of_an_empty_cache() {
    let st = stats(&HashCache::new("cache".to_string(), 0));
    assert_eq!(st.records, 0);
    assert_eq!(st.total_size_bytes, 6);
    assert_eq!(st.max_size_bytes, 6);
    assert_eq!(st.percentage_used, 0);
    assert_eq!(st.records_most_recent_run, 0);
    assert_eq!(st.runs_represented, 0);
    assert_eq!(st.avg_records_per_run, 0);
}

#[test]
fn gc_brings_the_file_down() {
    assert!(gc("cache".to_string(), None, Some(36)).is_none());
    let bytes = file_of(&[(0, 4), (0, 3), (1, 2), (2, 1)]);
    let (content, full) = gc("cache".to_string(), Some(&bytes), Some(36)).unwrap();
    assert!(full);
    assert_eq!(content, file_of(&[(1, 3), (1, 4)]));
    let (content, full) = gc("cache".to_string(), Some(&bytes), None).unwrap();
    assert!(!full);
    assert_eq!(content, file_of(&[(1, 3), (1, 4), (2, 2), (3, 1)]));
    // a file that cannot be used is replaced by an empty one
    let (content, full) = gc("cache".to_string(), Some(&[1, 2, 3]), None).unwrap();
    assert!(!full);
    assert_eq!(content, file_of(&[]));
}
