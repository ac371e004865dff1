use pengler::tasks::{CounterEvent, Task, TaskManager, TaskStatus, TaskError};

#[test]
fn fresh_task_runs_with_zero_counters() {
    let t = Task::new("/lib".to_string(), 5);
    let info = t.get_info();
    assert_eq!(info.folder_path, "/lib");
    assert_eq!(info.total_files, 5);
    assert_eq!(info.processed_files, 0);
    assert_eq!(info.optimized_files, 0);
    assert_eq!(info.failed_files, 0);
    assert_eq!(info.status, TaskStatus::Running);
}

#[test]
fn pause_resume_toggle() {
    let mut t = Task::new("/lib".to_string(), 1);
    t.pause();
    assert!(t.is_paused());
    assert_eq!(t.get_info().status, TaskStatus::Paused);
    t.resume();
    assert!(!t.is_paused());
    assert_eq!(t.get_info().status, TaskStatus::Running);
}

#[test]
fn stop_is_terminal_whatever_came_before() {
    // a few representative pause/resume prefixes, each ending in stop
    let mut a = Task::new("/a".to_string(), 3);
    a.stop();
    assert_eq!(a.get_info().status, TaskStatus::Stopped);

    let mut b = Task::new("/b".to_string(), 3);
    b.pause();
    b.resume();
    b.pause();
    b.stop();
    assert_eq!(b.get_info().status, TaskStatus::Stopped);

    // and nothing moves it afterwards
    b.pause();
    assert_eq!(b.get_info().status, TaskStatus::Stopped);
    b.resume();
    assert_eq!(b.get_info().status, TaskStatus::Stopped);
    b.complete();
    assert_eq!(b.get_info().status, TaskStatus::Stopped);
}

#[test]
fn completed_only_when_all_processed() {
    let mut t = Task::new("/lib".to_string(), 2);
    t.increment_processed();
    t.complete();
    assert_eq!(t.get_info().status, TaskStatus::Running);
    t.increment_processed();
    t.complete();
    assert_eq!(t.get_info().status, TaskStatus::Completed);
    // terminal: a later stop does not rewrite history
    t.stop();
    assert_eq!(t.get_info().status, TaskStatus::Completed);
}

#[test]
fn counters_record_every_increment() {
    // N workers each incrementing C times, interleaved round-robin:
    // exactly N*C increments land
    let n_workers = 4usize;
    let c = 250usize;
    let mut t = Task::new("/lib".to_string(), n_workers * c);
    for _round in 0..c {
        for _w in 0..n_workers {
            t.increment_processed();
        }
    }
    assert_eq!(t.get_info().processed_files, n_workers * c);
    t.increment_optimized();
    t.increment_failed();
    let info = t.get_info();
    assert_eq!(info.optimized_files, 1);
    assert_eq!(info.failed_files, 1);
    assert_eq!(info.processed_files, n_workers * c);
}

#[test]
fn registry_keys_one_task_per_folder() {
    let mut m = TaskManager::new();
    m.add_task("/a".to_string(), 3);
    m.add_task("/b".to_string(), 5);
    assert_eq!(m.get_all_tasks().len(), 2);
    // replace-on-create for the same folder
    m.add_task("/a".to_string(), 9);
    let all = m.get_all_tasks();
    assert_eq!(all.len(), 2);
    let a = m.get_task("/a").unwrap().get_info();
    assert_eq!(a.total_files, 9);
    assert_eq!(a.processed_files, 0);
    assert!(m.get_task("/c").is_none());
}

#[test]
fn registry_control_calls() {
    let mut m = TaskManager::new();
    m.add_task("/a".to_string(), 3);
    assert!(m.has_running_task("/a"));
    m.pause_task("/a").unwrap();
    assert_eq!(m.get_task("/a").unwrap().get_info().status, TaskStatus::Paused);
    // paused still counts as running for the single-task constraint
    assert!(m.has_running_task("/a"));
    m.resume_task("/a").unwrap();
    assert_eq!(m.get_task("/a").unwrap().get_info().status, TaskStatus::Running);
    m.stop_task("/a").unwrap();
    assert_eq!(m.get_task("/a").unwrap().get_info().status, TaskStatus::Stopped);
    assert!(!m.has_running_task("/a"));
    // control of one folder leaves the others alone
    m.add_task("/b".to_string(), 1);
    m.pause_task("/b").unwrap();
    assert_eq!(m.get_task("/a").unwrap().get_info().status, TaskStatus::Stopped);
}

#[test]
fn resume_completes_a_finished_paused_task() {
    // pausing over the final file must not strand the batch: the resume
    // itself completes a task whose every file is processed
    let mut m = TaskManager::new();
    m.add_task("/a".to_string(), 2);
    m.pause_task("/a").unwrap();
    // workers finish the in-flight files while the task is paused
    assert!(m.record_event("/a", CounterEvent::Processed));
    assert!(m.record_event("/a", CounterEvent::Processed));
    assert_eq!(m.get_task("/a").unwrap().get_info().status, TaskStatus::Paused);
    m.resume_task("/a").unwrap();
    let info = m.get_task("/a").unwrap().get_info();
    assert_eq!(info.processed_files, 2);
    assert_eq!(info.status, TaskStatus::Completed);
    // an unfinished task resumes to Running as before
    let mut m2 = TaskManager::new();
    m2.add_task("/b".to_string(), 2);
    m2.pause_task("/b").unwrap();
    assert!(m2.record_event("/b", CounterEvent::Processed));
    m2.resume_task("/b").unwrap();
    assert_eq!(m2.get_task("/b").unwrap().get_info().status, TaskStatus::Running);
}

#[test]
fn control_of_missing_task_fails() {
    let mut m = TaskManager::new();
    assert_eq!(m.pause_task("/nope"), Err(TaskError::TaskNotFound));
    assert_eq!(m.resume_task("/nope"), Err(TaskError::TaskNotFound));
    assert_eq!(m.stop_task("/nope"), Err(TaskError::TaskNotFound));
    assert!(!m.has_running_task("/nope"));
}

#[test]
fn remove_task_unregisters() {
    let mut m = TaskManager::new();
    m.add_task("/a".to_string(), 3);
    m.remove_task("/a");
    assert!(m.get_task("/a").is_none());
    assert_eq!(m.get_all_tasks().len(), 0);
    // removing a missing task is harmless
    m.remove_task("/a");
}
