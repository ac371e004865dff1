use pengler::store::{CacheStore, StoreError};

fn seeded_store() -> (CacheStore, i64, i64) {
    let mut store = CacheStore::new();
    let fid_a = store.add_library_folder("/library/a", "hash-a").unwrap();
    let fid_b = store.add_library_folder("/library/b", "hash-b").unwrap();
    (store, fid_a, fid_b)
}

#[test]
fn add_folder_assigns_and_keeps_ids() {
    let mut store = CacheStore::new();
    let id1 = store.add_library_folder("/photos", "h1").unwrap();
    let id2 = store.add_library_folder("/videos", "h2").unwrap();
    assert_ne!(id1, id2);
    // re-registering the same path keeps the id and refreshes the hash
    let id3 = store.add_library_folder("/photos", "h1-new").unwrap();
    assert_eq!(id1, id3);
    assert_eq!(store.get_folder_id("/photos"), Some(id1));
    assert_eq!(store.get_folder_id("/videos"), Some(id2));
    assert_eq!(store.get_folder_id("/missing"), None);
    let folders = store.get_all_folders();
    assert_eq!(folders.len(), 2);
    // most recently registered first
    assert_eq!(folders[0].0, "/videos");
    assert_eq!(folders[1].0, "/photos");
    assert_eq!(folders[1].1, "h1-new");
}

#[test]
fn cache_entry_upsert_is_idempotent() {
    let (mut store, fid_a, _) = seeded_store();
    store
        .add_cache_entry(fid_a, "/library/a/x.jpg", "hx", "/cache/optimized/x.webp", "image", 100, 40)
        .unwrap();
    store
        .add_cache_entry(fid_a, "/library/a/x2.jpg", "hx", "/cache/optimized/x.webp", "image", 100, 44)
        .unwrap();
    assert_eq!(store.get_total_entry_count(), 1);
    let stats = store.get_cache_stats();
    assert_eq!(stats.entry_count, 1);
    assert_eq!(stats.original_size, 100);
    assert_eq!(stats.cached_size, 44);
}

#[test]
fn same_hash_under_two_folders_is_two_entries() {
    let (mut store, fid_a, fid_b) = seeded_store();
    store
        .add_cache_entry(fid_a, "/library/a/x.jpg", "hx", "/cache/optimized/x.webp", "image", 100, 40)
        .unwrap();
    store
        .add_cache_entry(fid_b, "/library/b/x.jpg", "hx", "/cache/optimized/x.webp", "image", 100, 40)
        .unwrap();
    assert_eq!(store.get_total_entry_count(), 2);
}

#[test]
fn unknown_folder_is_refused() {
    let mut store = CacheStore::new();
    let r = store.add_cache_entry(42, "/p", "h", "/c", "image", 1, 1);
    assert_eq!(r, Err(StoreError::UnknownFolder));
}

#[test]
fn folder_cascade_returns_exactly_its_pairs() {
    let (mut store, fid_a, fid_b) = seeded_store();
    store
        .add_cache_entry(fid_a, "/library/a/1.jpg", "h1", "/cache/1.webp", "image", 10, 4)
        .unwrap();
    store
        .add_cache_entry(fid_a, "/library/a/2.mp4", "h2", "/cache/2.mp4", "video", 20, 8)
        .unwrap();
    store
        .add_cache_entry(fid_b, "/library/b/3.jpg", "h3", "/cache/3.webp", "image", 30, 12)
        .unwrap();
    let (cached, hashes) = store.remove_library_folder("/library/a");
    assert_eq!(cached, vec!["/cache/1.webp".to_string(), "/cache/2.mp4".to_string()]);
    assert_eq!(hashes, vec!["h1".to_string(), "h2".to_string()]);
    // the other folder's entries are untouched
    assert_eq!(store.get_total_entry_count(), 1);
    assert_eq!(store.get_cached_path("h3"), Some("/cache/3.webp".to_string()));
    assert_eq!(store.get_cached_path("h1"), None);
    assert_eq!(store.get_folder_id("/library/a"), None);
    assert_eq!(store.get_folder_id("/library/b"), Some(fid_b));
}

#[test]
fn clear_folder_cache_keeps_the_folder() {
    let (mut store, fid_a, _) = seeded_store();
    store
        .add_cache_entry(fid_a, "/library/a/1.jpg", "h1", "/cache/1.webp", "image", 10, 4)
        .unwrap();
    let (cached, hashes) = store.clear_folder_cache("/library/a");
    assert_eq!(cached, vec!["/cache/1.webp".to_string()]);
    assert_eq!(hashes, vec!["h1".to_string()]);
    assert_eq!(store.get_total_entry_count(), 0);
    assert_eq!(store.get_folder_id("/library/a"), Some(fid_a));
}

#[test]
fn removing_missing_folder_changes_nothing() {
    let (mut store, fid_a, _) = seeded_store();
    store
        .add_cache_entry(fid_a, "/library/a/1.jpg", "h1", "/cache/1.webp", "image", 10, 4)
        .unwrap();
    let (cached, hashes) = store.remove_library_folder("/nowhere");
    assert!(cached.is_empty());
    assert!(hashes.is_empty());
    assert_eq!(store.get_total_entry_count(), 1);
}

#[test]
fn dedup_self_healing_purges_stale_entries() {
    let (mut store, fid_a, _) = seeded_store();
    store
        .add_cache_entry(fid_a, "/library/a/gone.jpg", "hg", "/cache/g.webp", "image", 10, 4)
        .unwrap();
    let paths = store.paths_with_hash("hg");
    assert_eq!(paths, vec!["/library/a/gone.jpg".to_string()]);
    // the shell probed every recorded path and found none on disk
    assert!(!store.check_file_exists("hg", false));
    // the stale entries are purged, not hidden
    assert!(store.paths_with_hash("hg").is_empty());
    assert_eq!(store.get_cached_path("hg"), None);
    // a second ask stays false and re-creates nothing
    assert!(!store.check_file_exists("hg", false));
    assert_eq!(store.get_total_entry_count(), 0);
}

#[test]
fn file_exists_keeps_live_entries() {
    let (mut store, fid_a, _) = seeded_store();
    store
        .add_cache_entry(fid_a, "/library/a/here.jpg", "hh", "/cache/h.webp", "image", 10, 4)
        .unwrap();
    assert!(store.check_file_exists("hh", true));
    assert_eq!(store.get_total_entry_count(), 1);
}

#[test]
fn cache_stats_sums_exactly() {
    let (mut store, fid_a, fid_b) = seeded_store();
    store
        .add_cache_entry(fid_a, "/a/1.jpg", "h1", "/c/1.webp", "image", 1000, 300)
        .unwrap();
    store
        .add_cache_entry(fid_b, "/b/2.mp4", "h2", "/c/2.mp4", "video", 5000, 4500)
        .unwrap();
    let stats = store.get_cache_stats();
    assert_eq!(stats.entry_count, 2);
    assert_eq!(stats.original_size, 6000);
    assert_eq!(stats.cached_size, 4800);
}

#[test]
fn recent_entries_come_newest_first() {
    let (mut store, fid_a, _) = seeded_store();
    store.add_cache_entry(fid_a, "/a/1.jpg", "h1", "/c/1.webp", "image", 1, 1).unwrap();
    store.add_cache_entry(fid_a, "/a/2.jpg", "h2", "/c/2.webp", "image", 1, 1).unwrap();
    let rows = store.get_all_cache_entries();
    assert_eq!(rows.len(), 2);
    assert_eq!(rows[0].0, "h2");
    assert_eq!(rows[1].0, "h1");
    assert_eq!(rows[0].1, "/a/2.jpg");
    assert_eq!(rows[0].2, "image");
}

#[test]
fn media_rows_upsert_by_path() {
    let (mut store, fid_a, _) = seeded_store();
    store
        .upsert_media_file(fid_a, "/a/p.jpg", "hp", 10, 640, 480, None, 111, None, "image", 222)
        .unwrap();
    store
        .upsert_media_file(fid_a, "/a/p.jpg", "hp2", 12, 800, 600, Some(7), 113, Some("/t.webp"), "image", 222)
        .unwrap();
    assert_eq!(store.get_media_files_count(), 1);
    let rows = store.load_all_media_files();
    assert_eq!(rows.len(), 1);
    assert_eq!(rows[0].file_hash, "hp2");
    assert_eq!(rows[0].width, 800);
    assert_eq!(rows[0].taken_at, Some(7));
    assert_eq!(rows[0].thumbnail_path, Some("/t.webp".to_string()));
    store.delete_media_file_by_path("/a/p.jpg");
    assert_eq!(store.get_media_files_count(), 0);
}

#[test]
fn update_folder_stats_touches_one_folder() {
    let (mut store, fid_a, fid_b) = seeded_store();
    store.update_folder_stats(fid_a, 17);
    let _ = fid_b;
    // counts are not part of the folder listing; the id lookups still hold
    assert_eq!(store.get_folder_id("/library/a"), Some(fid_a));
}
