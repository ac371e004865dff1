use pengler::hashing::hash_bytes;
use pengler::importer::{unique_target_name, plan_import, format_timestamp, format_date,
    create_preview_candidate};
use pengler::store::CacheStore;

#[test]
fn free_name_is_kept() {
    let existing = vec!["other.jpg".to_string()];
    assert_eq!(unique_target_name("photo.jpg", &existing), "photo.jpg");
    assert_eq!(unique_target_name("photo.jpg", &Vec::new()), "photo.jpg");
}

#[test]
fn conflicting_name_gets_the_first_free_suffix() {
    // two distinct files normalize to the same destination name: the
    // second is renamed, preserving both
    let bucket = vec!["photo.jpg".to_string()];
    assert_eq!(unique_target_name("photo.jpg", &bucket), "photo_1.jpg");

    let fuller = vec!["photo.jpg".to_string(), "photo_1.jpg".to_string(), "photo_2.jpg".to_string()];
    assert_eq!(unique_target_name("photo.jpg", &fuller), "photo_3.jpg");

    // no extension: the counter lands on the bare stem
    let bare = vec!["notes".to_string(), "notes_1".to_string()];
    assert_eq!(unique_target_name("notes", &bare), "notes_2");

    // hidden files keep their whole name as the stem
    let hidden = vec![".config".to_string()];
    assert_eq!(unique_target_name(".config", &hidden), ".config_1");
}

#[test]
fn import_lands_in_a_date_bucket() {
    // 2024-03-05 13:45:20 UTC
    let plan = plan_import("/dest", 1709646320, "photo.jpg", &Vec::new()).unwrap();
    assert_eq!(plan.year_dir, "/dest/2024");
    assert_eq!(plan.date_dir, "/dest/2024/2024-03-05");
    assert_eq!(plan.file_name, "photo.jpg");
    assert_eq!(plan.dest_path, "/dest/2024/2024-03-05/photo.jpg");
}

#[test]
fn import_conflict_renames_in_the_bucket() {
    let existing = vec!["photo.jpg".to_string()];
    let plan = plan_import("/dest", 1709646320, "photo.jpg", &existing).unwrap();
    assert_eq!(plan.file_name, "photo_1.jpg");
    assert_eq!(plan.dest_path, "/dest/2024/2024-03-05/photo_1.jpg");
}

#[test]
fn whole_calendar_range_plans() {
    // the last representable second of year 9999 still buckets
    let plan = plan_import("/dest", 253402300799, "x.jpg", &Vec::new()).unwrap();
    assert_eq!(plan.date_dir, "/dest/9999/9999-12-31");
    assert_eq!(format_timestamp(253402300799).unwrap(), "9999-12-31 23:59:59");
}

#[test]
fn years_pad_after_the_sign() {
    assert_eq!(format_date(-1, 2, 3), "-0001-02-03");
    assert_eq!(format_date(0, 1, 1), "0000-01-01");
    assert_eq!(format_date(12345, 6, 7), "12345-06-07");
}

#[test]
fn timestamps_format_with_padding() {
    assert_eq!(format_timestamp(1709646320).unwrap(), "2024-03-05 13:45:20");
    // 1999-12-31 23:59:59 UTC
    assert_eq!(format_timestamp(946684799).unwrap(), "1999-12-31 23:59:59");
    // 2001-01-02 03:04:05 UTC
    assert_eq!(format_timestamp(978404645).unwrap(), "2001-01-02 03:04:05");
    // the epoch itself
    assert_eq!(format_timestamp(0).unwrap(), "1970-01-01 00:00:00");
    assert_eq!(format_date(2024, 3, 5), "2024-03-05");
    assert_eq!(format_date(800, 12, 31), "0800-12-31");
}

#[test]
fn preview_candidate_identifies_the_file() {
    let c = create_preview_candidate("/sd/DCIM/IMG_0001.JPG", 12345, 1709646320).unwrap();
    assert_eq!(c.file_path, "/sd/DCIM/IMG_0001.JPG");
    assert_eq!(c.file_name, "IMG_0001.JPG");
    assert_eq!(c.file_size, 12345);
    assert_eq!(c.media_type, "image");
    assert_eq!(c.modified_at, "2024-03-05 13:45:20");
    assert_eq!(c.file_hash, "");
    assert!(!c.is_duplicate);
    assert!(c.thumbnail_path.is_none());
    assert!(c.checking_duplicate.is_none());

    let v = create_preview_candidate("clip.mov", 1, 0).unwrap();
    assert_eq!(v.media_type, "video");
    let u = create_preview_candidate("readme.txt", 1, 0).unwrap();
    assert_eq!(u.media_type, "unknown");
}

#[test]
fn duplicate_is_seen_across_folders() {
    // the same content imported under folder A, then scanned under B
    let mut store = CacheStore::new();
    let fid_a = store.add_library_folder("/folder/a", "ha").unwrap();
    store.add_library_folder("/folder/b", "hb").unwrap();
    let hash = hash_bytes(b"the same bytes");

    // first import: the hash is unknown, so not a duplicate
    assert!(!store.check_file_exists(&hash, false));

    // folder A registers the imported file for dedup tracking, with the
    // destination path standing as both original and cached
    store
        .add_cache_entry(fid_a, "/folder/a/2024/2024-03-05/x.jpg", &hash,
            "/folder/a/2024/2024-03-05/x.jpg", "image", 9, 9)
        .unwrap();

    // scanning the same content under folder B now reports a duplicate
    // (the recorded original still exists on disk)
    assert!(store.check_file_exists(&hash, true));
}
