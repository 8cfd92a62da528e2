use perf_linter_core::cache::{hash_content, IncrementalCache};

#[test]
fn test_cache_hit_miss() {
    let mut cache = IncrementalCache::<String>::new("perf_linter_test_cache", "1.0");

    let file_path = "test.ts";
    let content = "const x = 1;";
    let data = "parsed_ast".to_string();

    // First access - cache miss
    assert!(cache.get(file_path, content).is_none());

    // Store in cache
    cache.set(file_path, content, data.clone(), 0);

    // Second access - cache hit
    assert_eq!(cache.get(file_path, content), Some(&data));

    // Modified content - cache miss
    let new_content = "const x = 2;";
    assert!(cache.get(file_path, new_content).is_none());
}

#[test]
fn test_persistent_cache() {
    let file_path = "persist.ts";
    let content = "const y = 10;";
    let data = "persistent_data".to_string();

    // Store through one cache and take out the entry that would be persisted
    let mut first = IncrementalCache::<String>::new("perf_linter_persist_cache", "1.0");
    first.set(file_path, content, data.clone(), 42);
    let persisted = first.entry(file_path).unwrap().clone();

    // A fresh cache takes the entry back in and finds the data
    let mut second = IncrementalCache::<String>::new("perf_linter_persist_cache", "1.0");
    assert!(second.get(file_path, content).is_none());
    assert!(second.promote(file_path, content, persisted));
    assert_eq!(second.get(file_path, content), Some(&data));
}

#[test]
fn stale_entry_is_not_promoted() {
    let mut first = IncrementalCache::<String>::new("dir", "1.0");
    first.set("a.ts", "old text", "old".to_string(), 1);
    let persisted = first.entry("a.ts").unwrap().clone();
    let mut second = IncrementalCache::<String>::new("dir", "1.0");
    assert!(!second.promote("a.ts", "new text", persisted));
    assert!(second.get("a.ts", "new text").is_none());
    assert!(second.get("a.ts", "old text").is_none());
    assert_eq!(second.stats().memory_entries, 0);
}

#[test]
fn set_replaces_and_clear_empties() {
    let mut cache = IncrementalCache::<u32>::new("dir", "v");
    cache.set("a.ts", "one", 1, 5);
    cache.set("b.ts", "two", 2, 5);
    cache.set("a.ts", "uno", 11, 6);
    assert_eq!(cache.stats().memory_entries, 2);
    assert_eq!(cache.stats().cache_dir, "dir");
    assert!(cache.get("a.ts", "one").is_none());
    assert_eq!(cache.get("a.ts", "uno"), Some(&11));
    assert_eq!(cache.get("b.ts", "two"), Some(&2));
    let e = cache.entry("a.ts").unwrap();
    assert_eq!(e.modified_at, 6);
    assert_eq!(e.content_hash, hash_content("uno"));
    cache.clear();
    assert_eq!(cache.stats().memory_entries, 0);
    assert!(cache.get("b.ts", "two").is_none());
}

#[test]
fn fingerprints_follow_the_text() {
    assert_eq!(hash_content("const x = 1;"), hash_content("const x = 1;"));
    assert_ne!(hash_content("const x = 1;"), hash_content("const x = 2;"));
    assert_ne!(hash_content(""), hash_content(" "));
}

#[test]
fn disk_key_depends_on_path_and_version() {
    let a = IncrementalCache::<u8>::new("d", "1.0");
    let b = IncrementalCache::<u8>::new("d", "2.0");
    assert_eq!(a.disk_key("x.ts"), a.disk_key("x.ts"));
    assert_ne!(a.disk_key("x.ts"), a.disk_key("y.ts"));
    assert_ne!(a.disk_key("x.ts"), b.disk_key("x.ts"));
    assert_eq!(a.cache_dir(), "d");
    // parts are terminated, so moving a character between path and version changes the key
    let v0 = IncrementalCache::<u8>::new("d", "0");
    let v10 = IncrementalCache::<u8>::new("d", "10");
    assert_ne!(v0.disk_key("x1"), v10.disk_key("x"));
}
