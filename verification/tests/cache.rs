use lun::cache::{Cache, CacheWriter, HashCache, Key};
use lun::file::{Stamp, Xxhash};
use lun::tool;

fn create_test_key(path: &str, cmd: &str) -> Key {
    let tool_stamp = tool::Stamp(lun::file::compute_hash(cmd.as_bytes()));
    Key::new(Stamp(Xxhash(path.len() as u128 + 12345)), tool_stamp)
}

#[test]
fn new_cache() {
    let cache = HashCache::new("cache".to_string(), 1000);
    assert!(cache.hashes.is_empty());
    assert_eq!(cache.file, "cache");
}

#[test]
fn load_nonexistent_file() {
    let loaded = HashCache::from_file("cache".to_string(), None, None);
    assert!(loaded.cache.hashes.is_empty());
    assert!(!loaded.discard);
}

#[test]
fn load_empty_file() {
    let loaded = HashCache::from_file("cache".to_string(), Some(b""), None);
    assert!(loaded.cache.hashes.is_empty());
    assert!(loaded.discard);
}

#[test]
fn persistence() {
    let key = create_test_key("test.rs", "cargo fmt");
    let content = {
        let mut cache = HashCache::new("cache".to_string(), 1000);
        cache.done(&key);
        cache.flush().content.unwrap()
    };
    {
        let mut loaded = HashCache::from_file("cache".to_string(), Some(&content), None);
        assert!(!loaded.discard);
        assert!(!loaded.cache.needed(&key));
    }
}
