use pengler::thumbs::{dir_cache_stats, CACHE_MAX_SIZE};
use pengler::hashing::hash_bytes;
use pengler::media::MediaType;
use pengler::optimizer::{commit_optimize, plan_optimize, OptimizePlan};
use pengler::store::CacheStore;
use pengler::tasks::{TaskManager, TaskStatus};

#[test]
fn thumbnail_stats_sum_exactly() {
    let stats = dir_cache_stats(&vec![100, 200, 300]);
    assert_eq!(stats.file_count, 3);
    assert_eq!(stats.total_size, 600);
    assert_eq!(stats.max_size, CACHE_MAX_SIZE);
    assert_eq!(CACHE_MAX_SIZE, 500 * 1024 * 1024);
    let empty = dir_cache_stats(&Vec::new());
    assert_eq!(empty.file_count, 0);
    assert_eq!(empty.total_size, 0);
}

#[test]
fn thumbnail_stats_saturate_instead_of_wrapping() {
    let stats = dir_cache_stats(&vec![u64::MAX, 1]);
    assert_eq!(stats.file_count, 2);
    assert_eq!(stats.total_size, u64::MAX);
}

#[test]
fn batch_of_two_files_completes_the_task() {
    let mut store = CacheStore::new();
    store.add_library_folder("/lib", "fh").unwrap();
    let mut tasks = TaskManager::new();
    tasks.add_task("/lib".to_string(), 2);
    let library = vec!["/lib".to_string()];

    for (name, bytes) in [("a", b"first file".as_slice()), ("b", b"second file".as_slice())] {
        let hash = hash_bytes(bytes);
        let file = format!("/lib/{}.jpg", name);
        let plan = plan_optimize(
            &store, &mut tasks, &library, "/cache", 85, 1920, "/lib", &file, &hash, "image",
            false,
        );
        let job = match plan {
            OptimizePlan::Transform(job) => job,
            _ => panic!("expected a transform"),
        };
        assert_eq!(job.kind, MediaType::Image);
        let out = format!("{}/{}", job.output_dir, job.output_name);
        commit_optimize(&mut store, &mut tasks, "/lib", &file, &hash, "image", Ok((out, 5)), 9)
            .unwrap();
    }
    let info = tasks.get_task("/lib").unwrap().get_info();
    assert_eq!(info.processed_files, 2);
    assert_eq!(info.optimized_files, 2);
    assert_eq!(info.failed_files, 0);
    assert_eq!(info.status, TaskStatus::Completed);
    assert!(!tasks.has_running_task("/lib"));
    assert_eq!(store.get_total_entry_count(), 2);
}
