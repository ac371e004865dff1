use pengler::hashing::hash_bytes;
use pengler::media::MediaType;
use pengler::optimizer::{derivative_name, thumbnail_path, optimized_dir, needs_resize,
    scale_filter, plan_optimize, commit_optimize, OptimizePlan, OptimizeError, TransformError,
    BatchOptimizeProgress};
use pengler::store::CacheStore;
use pengler::tasks::{TaskManager, TaskStatus};

#[test]
fn derivative_names_are_content_addressed() {
    let h = "aaaabbbbccccdddd0123456789012345678901234567890123456789012345ff";
    assert_eq!(derivative_name(h, MediaType::Image), "aaaabbbbccccdddd.webp");
    assert_eq!(derivative_name(h, MediaType::Video), "aaaabbbbccccdddd.mp4");
    assert_eq!(thumbnail_path("/cache", h), "/cache/thumbnails/aaaabbbbccccdddd.webp");
    assert_eq!(optimized_dir("/cache"), "/cache/optimized");
}

#[test]
fn resize_only_past_the_cap() {
    assert!(!needs_resize(1920, 1080, 1920));
    assert!(needs_resize(1921, 1080, 1920));
    assert!(needs_resize(800, 4000, 1920));
    assert!(!needs_resize(0, 0, 1920));
}

#[test]
fn scale_filter_caps_and_evens_dimensions() {
    assert_eq!(
        scale_filter(1920),
        "scale='min(1920,iw)':'min(1920,ih)':force_original_aspect_ratio=decrease,scale=trunc(iw/2)*2:trunc(ih/2)*2"
    );
    assert_eq!(
        scale_filter(720),
        "scale='min(720,iw)':'min(720,ih)':force_original_aspect_ratio=decrease,scale=trunc(iw/2)*2:trunc(ih/2)*2"
    );
}

fn setup() -> (CacheStore, TaskManager, Vec<String>, String) {
    let mut store = CacheStore::new();
    store.add_library_folder("/lib", "fh").unwrap();
    let mut tasks = TaskManager::new();
    tasks.add_task("/lib".to_string(), 1);
    let library = vec!["/lib".to_string()];
    (store, tasks, library, hash_bytes(b"new picture"))
}

#[test]
fn new_file_flows_to_a_transform_and_back() {
    let (mut store, mut tasks, library, hash) = setup();
    let plan = plan_optimize(
        &store, &mut tasks, &library, "/cache", 85, 1920, "/lib", "/lib/p.jpg", &hash, "image",
        false,
    );
    let job = match plan {
        OptimizePlan::Transform(job) => job,
        _ => panic!("expected a transform"),
    };
    assert_eq!(job.source_path, "/lib/p.jpg");
    assert_eq!(job.output_dir, "/cache/optimized");
    assert_eq!(job.output_name, format!("{}.webp", &hash[..16]));
    assert_eq!(job.kind, MediaType::Image);
    assert_eq!(job.quality, 85);
    assert_eq!(job.max_resolution, 1920);
    // the file is counted as processed as soon as work begins
    let info = tasks.get_task("/lib").unwrap().get_info();
    assert_eq!(info.processed_files, 1);
    assert_eq!(info.optimized_files, 0);

    let out = format!("{}/{}", job.output_dir, job.output_name);
    let r = commit_optimize(
        &mut store, &mut tasks, "/lib", "/lib/p.jpg", &hash, "image",
        Ok((out.clone(), 1234)), 5678,
    );
    assert_eq!(r.unwrap(), out);
    assert_eq!(store.get_cached_path(&hash), Some(out.clone()));
    let info = tasks.get_task("/lib").unwrap().get_info();
    assert_eq!(info.processed_files, 1);
    assert_eq!(info.optimized_files, 1);
    // one file total: the batch is complete
    assert_eq!(info.status, TaskStatus::Completed);

    // optimizing the same content again short-circuits to the same path
    // without handing out another transform
    tasks.add_task("/lib".to_string(), 1);
    let again = plan_optimize(
        &store, &mut tasks, &library, "/cache", 85, 1920, "/lib", "/elsewhere/copy.jpg", &hash,
        "image", true,
    );
    match again {
        OptimizePlan::AlreadyCached(p) => assert_eq!(p, out),
        _ => panic!("expected the cached path"),
    }
    let info = tasks.get_task("/lib").unwrap().get_info();
    assert_eq!(info.processed_files, 1);
    assert_eq!(info.optimized_files, 1);
}

#[test]
fn recorded_path_gone_from_disk_is_reoptimized() {
    let (mut store, mut tasks, library, hash) = setup();
    let fid = store.get_folder_id("/lib").unwrap();
    store
        .add_cache_entry(fid, "/lib/p.jpg", &hash, "/cache/optimized/x.webp", "image", 10, 4)
        .unwrap();
    // the recorded derivative no longer exists on disk: no short circuit
    let plan = plan_optimize(
        &store, &mut tasks, &library, "/cache", 85, 1920, "/lib", "/lib/p.jpg", &hash, "image",
        false,
    );
    assert!(matches!(plan, OptimizePlan::Transform(_)));
}

#[test]
fn removed_folder_rejects_the_file() {
    let (store, mut tasks, _library, hash) = setup();
    let elsewhere = vec!["/other".to_string()];
    let plan = plan_optimize(
        &store, &mut tasks, &elsewhere, "/cache", 85, 1920, "/lib", "/lib/p.jpg", &hash, "image",
        false,
    );
    assert!(matches!(plan, OptimizePlan::Rejected(OptimizeError::FolderRemoved)));
    // counted failed, not processed: work never began on the file
    let info = tasks.get_task("/lib").unwrap().get_info();
    assert_eq!(info.processed_files, 0);
    assert_eq!(info.failed_files, 1);
}

#[test]
fn stopped_task_counts_and_aborts() {
    let (store, mut tasks, library, hash) = setup();
    tasks.stop_task("/lib").unwrap();
    let plan = plan_optimize(
        &store, &mut tasks, &library, "/cache", 85, 1920, "/lib", "/lib/p.jpg", &hash, "image",
        false,
    );
    assert!(matches!(plan, OptimizePlan::Rejected(OptimizeError::TaskStopped)));
    let info = tasks.get_task("/lib").unwrap().get_info();
    assert_eq!(info.processed_files, 1);
    assert_eq!(info.failed_files, 1);
    assert_eq!(info.status, TaskStatus::Stopped);
}

#[test]
fn paused_task_waits() {
    let (store, mut tasks, library, hash) = setup();
    tasks.pause_task("/lib").unwrap();
    let plan = plan_optimize(
        &store, &mut tasks, &library, "/cache", 85, 1920, "/lib", "/lib/p.jpg", &hash, "image",
        false,
    );
    assert!(matches!(plan, OptimizePlan::Paused));
    let info = tasks.get_task("/lib").unwrap().get_info();
    assert_eq!(info.processed_files, 0);
}

#[test]
fn unsupported_media_type_is_counted_failed() {
    let (store, mut tasks, library, hash) = setup();
    let plan = plan_optimize(
        &store, &mut tasks, &library, "/cache", 85, 1920, "/lib", "/lib/p.xyz", &hash, "audio",
        false,
    );
    assert!(matches!(plan, OptimizePlan::Rejected(OptimizeError::UnsupportedMediaType)));
    let info = tasks.get_task("/lib").unwrap().get_info();
    assert_eq!(info.processed_files, 1);
    assert_eq!(info.failed_files, 1);
}

#[test]
fn failed_transform_is_counted_and_registers_nothing() {
    let (mut store, mut tasks, library, hash) = setup();
    let plan = plan_optimize(
        &store, &mut tasks, &library, "/cache", 85, 1920, "/lib", "/lib/v.mp4", &hash, "video",
        false,
    );
    assert!(matches!(plan, OptimizePlan::Transform(_)));
    let r = commit_optimize(
        &mut store, &mut tasks, "/lib", "/lib/v.mp4", &hash, "video",
        Err(TransformError::EncoderMissing), 100,
    );
    assert!(matches!(r, Err(OptimizeError::Transform(TransformError::EncoderMissing))));
    assert_eq!(store.get_cached_path(&hash), None);
    let info = tasks.get_task("/lib").unwrap().get_info();
    assert_eq!(info.processed_files, 1);
    assert_eq!(info.failed_files, 1);
    assert_eq!(info.optimized_files, 0);
}

#[test]
fn unregistered_folder_cannot_register_cache_state() {
    let (mut store, mut tasks, _library, hash) = setup();
    store.remove_library_folder("/lib");
    let r = commit_optimize(
        &mut store, &mut tasks, "/lib", "/lib/p.jpg", &hash, "image",
        Ok(("/cache/optimized/p.webp".to_string(), 10)), 20,
    );
    assert!(matches!(r, Err(OptimizeError::FolderUnregistered)));
    assert_eq!(store.get_total_entry_count(), 0);
}

#[test]
fn batch_progress_counts_every_outcome() {
    let mut p = BatchOptimizeProgress::new(3);
    p.record(true);
    p.record(false);
    p.record(true);
    assert_eq!(p.total, 3);
    assert_eq!(p.processed, 3);
    assert_eq!(p.optimized, 2);
    assert_eq!(p.failed, 1);
    assert_eq!(p.cached, 0);
}
