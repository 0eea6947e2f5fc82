use crab_code::incremental_hash::{
    detect_changes, hash_bytes, ChangeKind, FileChange, FileHashCache, HashSnapshot,
};

#[test]
fn hash_bytes_deterministic() {
    let a = hash_bytes(b"hello world");
    let b = hash_bytes(b"hello world");
    assert_eq!(a, b);
}

#[test]
fn hash_bytes_different_input() {
    let a = hash_bytes(b"hello");
    let b = hash_bytes(b"world");
    assert_ne!(a, b);
}

#[test]
fn hash_empty() {
    let h = hash_bytes(b"");
    assert_ne!(h, 0); // SipHash of empty is non-zero
}

#[test]
fn cache_new_is_empty() {
    let cache = FileHashCache::new();
    assert!(cache.is_empty());
    assert_eq!(cache.len(), 0);
}

#[test]
fn cache_default() {
    let cache = FileHashCache::default();
    assert!(cache.is_empty());
}

#[test]
fn cache_lookup_needs_same_size_and_mtime() {
    let mut cache = FileHashCache::new();
    cache.store("/tmp/x/file.txt", 42, 100, 5, 7);
    assert_eq!(cache.len(), 1);
    assert_eq!(cache.lookup("/tmp/x/file.txt", 100, 5, 7), Some(42));
    assert_eq!(cache.lookup("/tmp/x//file.txt", 100, 5, 7), Some(42));
    assert_eq!(cache.lookup("/tmp/x/file.txt", 101, 5, 7), None);
    assert_eq!(cache.lookup("/tmp/x/file.txt", 100, 5, 8), None);
    assert_eq!(cache.lookup("/tmp/x/other.txt", 100, 5, 7), None);
    cache.store("/tmp/x/file.txt", 43, 101, 5, 7);
    assert_eq!(cache.len(), 1);
    assert_eq!(cache.lookup("/tmp/x/file.txt", 101, 5, 7), Some(43));
}

#[test]
fn cache_invalidate_and_prefix() {
    let mut cache = FileHashCache::new();
    cache.store("/d/sub/a.txt", 1, 0, 0, 1);
    cache.store("/d/b.txt", 2, 0, 0, 1);
    cache.store("/d/subway.txt", 3, 0, 0, 1);
    assert_eq!(cache.len(), 3);
    cache.invalidate_prefix("/d/sub");
    assert_eq!(cache.len(), 2);
    assert_eq!(cache.lookup("/d/subway.txt", 0, 0, 1), Some(3));
    cache.invalidate("/d/b.txt");
    assert_eq!(cache.len(), 1);
    cache.clear();
    assert!(cache.is_empty());
}

#[test]
fn detect_no_changes() {
    let mut snap: HashSnapshot = HashSnapshot::new();
    snap.insert("a.rs", 123);
    let changes = detect_changes(&snap, &snap);
    assert!(changes.is_empty());
}

#[test]
fn detect_added() {
    let old: HashSnapshot = HashSnapshot::new();
    let mut new: HashSnapshot = HashSnapshot::new();
    new.insert("new.rs", 42);
    let changes = detect_changes(&old, &new);
    assert_eq!(changes.len(), 1);
    assert_eq!(changes[0].kind, ChangeKind::Added);
    assert_eq!(changes[0].path, "new.rs");
}

#[test]
fn detect_removed() {
    let mut old: HashSnapshot = HashSnapshot::new();
    old.insert("gone.rs", 42);
    let new: HashSnapshot = HashSnapshot::new();
    let changes = detect_changes(&old, &new);
    assert_eq!(changes.len(), 1);
    assert_eq!(changes[0].kind, ChangeKind::Removed);
}

#[test]
fn detect_modified() {
    let mut old: HashSnapshot = HashSnapshot::new();
    old.insert("mod.rs", 1);
    let mut new: HashSnapshot = HashSnapshot::new();
    new.insert("mod.rs", 2);
    let changes = detect_changes(&old, &new);
    assert_eq!(changes.len(), 1);
    assert_eq!(changes[0].kind, ChangeKind::Modified);
}

#[test]
fn detect_mixed_changes() {
    let mut old: HashSnapshot = HashSnapshot::new();
    old.insert("kept.rs", 1);
    old.insert("modified.rs", 2);
    old.insert("removed.rs", 3);
    let mut new: HashSnapshot = HashSnapshot::new();
    new.insert("added.rs", 10);
    new.insert("kept.rs", 1);
    new.insert("modified.rs", 99);
    let changes = detect_changes(&old, &new);
    assert_eq!(changes.len(), 3);
    // Sorted by path
    assert_eq!(changes[0].path, "added.rs");
    assert_eq!(changes[0].kind, ChangeKind::Added);
    assert_eq!(changes[1].path, "modified.rs");
    assert_eq!(changes[1].kind, ChangeKind::Modified);
    assert_eq!(changes[2].path, "removed.rs");
    assert_eq!(changes[2].kind, ChangeKind::Removed);
}

#[test]
fn detect_both_empty() {
    let changes = detect_changes(&HashSnapshot::new(), &HashSnapshot::new());
    assert!(changes.is_empty());
}

#[test]
fn detect_orders_by_component() {
    // "a/b" comes before "a-b" component-wise ("a" < "a-b"), though not as text.
    let old: HashSnapshot = HashSnapshot::new();
    let mut new: HashSnapshot = HashSnapshot::new();
    new.insert("a-b", 1);
    new.insert("a/b", 2);
    let changes = detect_changes(&old, &new);
    assert_eq!(changes[0].path, "a/b");
    assert_eq!(changes[1].path, "a-b");
}

#[test]
fn file_change_display() {
    let c = FileChange {
        path: "src/main.rs".to_string(),
        kind: ChangeKind::Added,
    };
    assert_eq!(c.to_string(), "added: src/main.rs");
}
