use pengler::media::MediaType;
use pengler::scanner::{MediaFile, assign_media_id, normalize_path, normalize_dir,
    save_media_files, load_media_files, stale_media_paths};
use pengler::store::CacheStore;
use pengler::config::{Config, default_quality, default_max_resolution};

fn scanned(path: &str, hash: &str) -> MediaFile {
    let mut f = MediaFile::new(path.to_string(), hash.to_string(), 10, 640, 480, MediaType::Image);
    assign_media_id(&mut f);
    f
}

#[test]
fn media_file_starts_unidentified() {
    let f = MediaFile::new("/lib/a.jpg".to_string(), "h".to_string(), 10, 640, 480, MediaType::Image);
    assert_eq!(f.id, 0);
    assert_eq!(f.file_path, "/lib/a.jpg");
    assert_eq!(f.file_hash, "h");
    assert_eq!(f.file_size, 10);
    assert_eq!(f.width, 640);
    assert_eq!(f.height, 480);
    assert!(f.taken_at.is_none());
    assert!(f.thumbnail_path.is_none());
    assert_eq!(f.media_type, MediaType::Image);
    assert_eq!(f.modified_at, f.created_at);
}

#[test]
fn ids_are_nonnegative_and_path_determined() {
    let a = scanned("/lib/a.jpg", "h1");
    let b = scanned("/lib/a.jpg", "h2");
    let c = scanned("/lib/c.jpg", "h1");
    assert!(a.id >= 0);
    assert_eq!(a.id, b.id);
    assert_ne!(a.id, c.id);
}

#[test]
fn normalization_lowers_and_slashes() {
    assert_eq!(normalize_path("C:\\Pics\\X.JPG"), "c:/pics/x.jpg");
    assert_eq!(normalize_dir("/Lib"), "/lib/");
    assert_eq!(normalize_dir("/lib/"), "/lib/");
    assert_eq!(normalize_dir(""), "/");
}

#[test]
fn saving_matches_files_to_their_folders() {
    let mut store = CacheStore::new();
    store.add_library_folder("/lib", "h").unwrap();
    let files = vec![
        scanned("/lib/a.jpg", "ha"),
        scanned("/other/b.jpg", "hb"),
    ];
    let (saved, errors) = save_media_files(&mut store, &files);
    assert_eq!(saved, 1);
    assert_eq!(errors, 1);
    assert_eq!(store.get_media_files_count(), 1);
    let loaded = load_media_files(&store);
    assert_eq!(loaded.len(), 1);
    assert_eq!(loaded[0].file_path, "/lib/a.jpg");
    assert_eq!(loaded[0].file_hash, "ha");
    assert_eq!(loaded[0].media_type, MediaType::Image);
}

#[test]
fn saving_prefers_the_most_specific_folder() {
    let mut store = CacheStore::new();
    store.add_library_folder("/a", "h1").unwrap();
    let inner = store.add_library_folder("/a/b", "h2").unwrap();
    let files = vec![scanned("/a/b/c.jpg", "h")];
    let (saved, errors) = save_media_files(&mut store, &files);
    assert_eq!((saved, errors), (1, 0));
    let rows = store.load_all_media_files();
    assert_eq!(rows[0].folder_id, inner);
}

#[test]
fn ownership_ignores_case_and_separators() {
    let mut store = CacheStore::new();
    store.add_library_folder("/Lib", "h").unwrap();
    let files = vec![scanned("\\lib\\X.JPG", "h")];
    let (saved, errors) = save_media_files(&mut store, &files);
    assert_eq!((saved, errors), (1, 0));
}

#[test]
fn loading_skips_unrecognized_media_types() {
    let mut store = CacheStore::new();
    let fid = store.add_library_folder("/lib", "h").unwrap();
    store
        .upsert_media_file(fid, "/lib/a.jpg", "ha", 1, 1, 1, None, 0, None, "image", 0)
        .unwrap();
    store
        .upsert_media_file(fid, "/lib/weird.bin", "hw", 1, 1, 1, None, 0, None, "hologram", 0)
        .unwrap();
    assert_eq!(store.get_media_files_count(), 2);
    let loaded = load_media_files(&store);
    assert_eq!(loaded.len(), 1);
    assert_eq!(loaded[0].file_path, "/lib/a.jpg");
}

#[test]
fn rescan_reports_only_vanished_files_under_the_folder() {
    let db_paths = vec![
        "/lib/gone.jpg".to_string(),
        "/lib/Still.jpg".to_string(),
        "/elsewhere/gone.jpg".to_string(),
    ];
    let disk_paths = vec!["/lib/still.jpg".to_string()];
    let stale = stale_media_paths(&db_paths, &disk_paths, "/Lib");
    // only the vanished file under the folder, compared case-insensitively
    assert_eq!(stale, vec!["/lib/gone.jpg".to_string()]);
}

#[test]
fn config_list_operations() {
    let mut c = Config::default();
    assert_eq!(c.optimization_quality, default_quality());
    assert_eq!(c.max_resolution, default_max_resolution());
    assert!(c.library_folders.is_empty());
    c.add_library_folder("/a".to_string());
    c.add_library_folder("/b".to_string());
    c.add_library_folder("/a".to_string());
    assert_eq!(c.library_folders, vec!["/a".to_string(), "/b".to_string()]);
    c.remove_library_folder("/a");
    assert_eq!(c.library_folders, vec!["/b".to_string()]);
    c.remove_library_folder("/missing");
    assert_eq!(c.library_folders, vec!["/b".to_string()]);
    c.set_cache_folder("/cache".to_string());
    assert_eq!(c.cache_folder, "/cache");
}
