//! The optimization engine's decisions: content-addressed derivative names,
//! the resize decision, the encoder's scale filter, and the per-file
//! orchestration split in two around the transform itself. `plan_optimize`
//! takes every gate up to (and including) the dedup short circuit; the shell
//! runs the transform only when a `Transform` job comes back, and hands the
//! outcome to `commit_optimize`, which registers the derivative and settles
//! the task counters. Identical content therefore never reaches the
//! transform twice.

use vstd::prelude::*;
use vstd::string::*;
use crate::hashing::{short_of, short_hash};
use crate::media::MediaType;
use crate::store::{CacheStore, StoreError, CacheEntryRow, first_cached_path, seq_has_path,
    seq_has_fid, seq_folder, entries_without_key};
use crate::tasks::{TaskManager, TaskStatus, CounterEvent, apply_event, after_complete};
use crate::strkit::{str_eq, contains_str, join_path, u64_to_string, dec_rep};

verus! {

/// Why a single-file optimization did not produce a new derivative.
#[derive(Debug)]
pub enum OptimizeError {
    /// The folder is no longer in the configured library list.
    FolderRemoved,
    /// The folder's task was stopped; the file was counted and skipped.
    TaskStopped,
    /// Neither an image nor a video extension.
    UnsupportedMediaType,
    /// The folder is not registered in the store.
    FolderUnregistered,
    /// The store refused the registration.
    Storage(StoreError),
    /// The transform itself failed.
    Transform(TransformError),
}

/// How a transform failed, as the shell reports it.
#[derive(Debug)]
pub enum TransformError {
    /// The external encoder binary could not be found.
    EncoderMissing,
    /// The external encoder exited nonzero, with its error output.
    EncoderFailed(String),
    /// Reading or writing the media file failed.
    Io(String),
}

/// The derivative file name for a content hash: the 16-character hash
/// prefix with the media kind's extension.
pub open spec fn derivative_name_of(h: Seq<char>, t: MediaType) -> Seq<char> {
    short_of(h) + (match t {
        MediaType::Image => ".webp"@,
        MediaType::Video => ".mp4"@,
    })
}

/// Build the derivative file name.
pub fn derivative_name(file_hash: &str, t: MediaType) -> (r: String)
    ensures
        r@ == derivative_name_of(file_hash@, t),
{
    let mut s = short_hash(file_hash);
    match t {
        MediaType::Image => s.append(".webp"),
        MediaType::Video => s.append(".mp4"),
    }
    s
}

/// The thumbnail file name for a content hash.
pub open spec fn thumbnail_name_of(h: Seq<char>) -> Seq<char> {
    short_of(h) + ".webp"@
}

/// Where a content hash's thumbnail lives under the cache directory.
pub fn thumbnail_path(cache_dir: &str, file_hash: &str) -> (r: String)
    ensures
        r@ == cache_dir@ + "/"@ + "thumbnails"@ + "/"@ + thumbnail_name_of(file_hash@),
{
    let mut name = short_hash(file_hash);
    name.append(".webp");
    join_path(join_path(cache_dir, "thumbnails").as_str(), name.as_str())
}

/// Where derivatives live under the cache directory.
pub fn optimized_dir(cache_dir: &str) -> (r: String)
    ensures
        r@ == cache_dir@ + "/"@ + "optimized"@,
{
    join_path(cache_dir, "optimized")
}

/// Downscale only when either dimension exceeds the cap.
pub fn needs_resize(width: u32, height: u32, max_resolution: u32) -> (r: bool)
    ensures
        r == (width > max_resolution || height > max_resolution),
{
    width > max_resolution || height > max_resolution
}

/// The encoder's scale filter: cap each dimension at the maximum while
/// preserving aspect ratio, then force both output dimensions even.
pub open spec fn scale_filter_text(max: nat) -> Seq<char> {
    "scale='min("@ + dec_rep(max) + ",iw)':'min("@ + dec_rep(max) + ",ih)':force_original_aspect_ratio=decrease,scale=trunc(iw/2)*2:trunc(ih/2)*2"@
}

/// Build the encoder's scale filter.
pub fn scale_filter(max_resolution: u32) -> (r: String)
    ensures
        r@ == scale_filter_text(max_resolution as nat),
{
    let digits = u64_to_string(max_resolution as u64);
    let mut s: String = "scale='min(".to_owned();
    s.append(digits.as_str());
    s.append(",iw)':'min(");
    s.append(digits.as_str());
    s.append(",ih)':force_original_aspect_ratio=decrease,scale=trunc(iw/2)*2:trunc(ih/2)*2");
    proof {
        assert(s@ =~= scale_filter_text(max_resolution as nat));
    }
    s
}

/// A transform the shell still has to run.
pub struct TransformJob {
    pub source_path: String,
    pub output_dir: String,
    pub output_name: String,
    pub kind: MediaType,
    pub quality: u8,
    pub max_resolution: u32,
}

/// What planning one file's optimization decided.
pub enum OptimizePlan {
    /// The folder's task is paused: wait and plan again.
    Paused,
    /// No derivative will be made; the error says why.
    Rejected(OptimizeError),
    /// The content is already cached on disk: its recorded path, returned
    /// without re-invoking any transform.
    AlreadyCached(String),
    /// Run this transform, then commit its outcome.
    Transform(TransformJob),
}

/// Every counter of the folder's task (if any) is clear of its ceiling by
/// at least two increments.
pub open spec fn counters_clear(tasks: TaskManager, p: Seq<char>) -> bool {
    tasks.has_task(p) ==> {
        &&& tasks.spec_task(p).processed_files + 2 <= usize::MAX
        &&& tasks.spec_task(p).optimized_files + 2 <= usize::MAX
        &&& tasks.spec_task(p).failed_files + 2 <= usize::MAX
    }
}

/// Plan one file's optimization: check the folder is still in the library,
/// observe the task's pause/stop controls (a stopped task counts the file
/// as processed and failed before aborting), short-circuit content whose
/// derivative is recorded and still on disk, and otherwise count the file
/// as processed and hand back the transform to run. `cached_alive` is the
/// shell's report of whether the recorded cached path (if any) still exists
/// on disk.
pub fn plan_optimize(
    store: &CacheStore,
    tasks: &mut TaskManager,
    library_folders: &Vec<String>,
    cache_folder: &str,
    quality: u8,
    max_resolution: u32,
    folder_path: &str,
    file_path: &str,
    file_hash: &str,
    media_type: &str,
    cached_alive: bool,
) -> (r: OptimizePlan)
    requires
        old(tasks).wf(),
        counters_clear(*old(tasks), folder_path@),
    ensures
        final(tasks).wf(),
        final(tasks).has_task(folder_path@) == old(tasks).has_task(folder_path@),
        forall|q: Seq<char>| q != folder_path@
            ==> #[trigger] final(tasks).has_task(q) == old(tasks).has_task(q),
        forall|q: Seq<char>| q != folder_path@ && old(tasks).has_task(q)
            ==> #[trigger] final(tasks).spec_task(q) == old(tasks).spec_task(q),
        ({
            let p = folder_path@;
            let in_library = library_folders@.map_values(|s: String| s@).contains(p);
            let had = old(tasks).has_task(p);
            let t0 = old(tasks).spec_task(p);
            let live_gate = !(had && (t0.status is Paused || t0.status is Stopped));
            let cached_hit = cached_alive && (exists|i: int|
                0 <= i < store.entries@.len() && (#[trigger] store.entries@[i]).file_hash@
                    == file_hash@);
            let is_image = media_type@ == "image"@;
            let is_video = media_type@ == "video"@;
            match r {
                OptimizePlan::Paused => {
                    &&& in_library
                    &&& had
                    &&& t0.status is Paused
                    &&& final(tasks).spec_task(p) == t0
                },
                OptimizePlan::Rejected(e) => match e {
                    OptimizeError::FolderRemoved => {
                        &&& !in_library
                        &&& (had && !(t0.status is Stopped) ==> final(tasks).spec_task(p)
                            == apply_event(t0, CounterEvent::Failed))
                        &&& (had && t0.status is Stopped ==> final(tasks).spec_task(p) == t0)
                    },
                    OptimizeError::TaskStopped => {
                        &&& in_library
                        &&& had
                        &&& t0.status is Stopped
                        &&& final(tasks).spec_task(p) == apply_event(
                            apply_event(t0, CounterEvent::Processed),
                            CounterEvent::Failed,
                        )
                    },
                    OptimizeError::UnsupportedMediaType => {
                        &&& in_library
                        &&& live_gate
                        &&& !cached_hit
                        &&& !is_image
                        &&& !is_video
                        &&& (had ==> final(tasks).spec_task(p) == apply_event(
                            apply_event(t0, CounterEvent::Processed),
                            CounterEvent::Failed,
                        ))
                    },
                    _ => false,
                },
                OptimizePlan::AlreadyCached(path) => {
                    &&& in_library
                    &&& live_gate
                    &&& cached_hit
                    &&& first_cached_path(store.entries@, file_hash@) == Some(path@)
                    &&& (had ==> final(tasks).spec_task(p) == after_complete(
                        apply_event(
                            apply_event(t0, CounterEvent::Processed),
                            CounterEvent::Optimized,
                        ),
                    ))
                },
                OptimizePlan::Transform(job) => {
                    &&& in_library
                    &&& live_gate
                    &&& !cached_hit
                    &&& (is_image || is_video)
                    &&& job.kind == (if is_image {
                        MediaType::Image
                    } else {
                        MediaType::Video
                    })
                    &&& job.source_path@ == file_path@
                    &&& job.output_dir@ == cache_folder@ + "/"@ + "optimized"@
                    &&& job.output_name@ == derivative_name_of(file_hash@, job.kind)
                    &&& job.quality == quality
                    &&& job.max_resolution == max_resolution
                    &&& (had ==> final(tasks).spec_task(p) == apply_event(
                        t0,
                        CounterEvent::Processed,
                    ))
                },
            }
        }),
{
    if !contains_str(library_folders, folder_path) {
        if match tasks.task_status(folder_path) {
            Some(TaskStatus::Stopped) => false,
            Some(_) => true,
            None => false,
        } {
            tasks.record_event(folder_path, CounterEvent::Failed);
        }
        return OptimizePlan::Rejected(OptimizeError::FolderRemoved);
    }
    match tasks.task_status(folder_path) {
        Some(TaskStatus::Paused) => {
            return OptimizePlan::Paused;
        }
        Some(TaskStatus::Stopped) => {
            tasks.record_event(folder_path, CounterEvent::Processed);
            tasks.record_event(folder_path, CounterEvent::Failed);
            return OptimizePlan::Rejected(OptimizeError::TaskStopped);
        }
        _ => {}
    }
    if cached_alive {
        match store.get_cached_path(file_hash) {
            Some(p) => {
                tasks.record_event(folder_path, CounterEvent::Processed);
                tasks.record_event(folder_path, CounterEvent::Optimized);
                tasks.complete_if_done(folder_path);
                return OptimizePlan::AlreadyCached(p);
            }
            None => {}
        }
    }
    let kind: MediaType;
    if str_eq(media_type, "image") {
        kind = MediaType::Image;
    } else if str_eq(media_type, "video") {
        kind = MediaType::Video;
    } else {
        tasks.record_event(folder_path, CounterEvent::Processed);
        tasks.record_event(folder_path, CounterEvent::Failed);
        return OptimizePlan::Rejected(OptimizeError::UnsupportedMediaType);
    }
    tasks.record_event(folder_path, CounterEvent::Processed);
    OptimizePlan::Transform(TransformJob {
        source_path: file_path.to_owned(),
        output_dir: optimized_dir(cache_folder),
        output_name: derivative_name(file_hash, kind),
        kind,
        quality,
        max_resolution,
    })
}

/// Commit a transform's outcome: on success register the derivative under
/// its `(folder, hash)` key and count the file optimized (completing the
/// task when every file is processed); on failure count the file failed
/// unless the task was stopped meanwhile. The file was already counted as
/// processed by `plan_optimize`.
pub fn commit_optimize(
    store: &mut CacheStore,
    tasks: &mut TaskManager,
    folder_path: &str,
    file_path: &str,
    file_hash: &str,
    media_type: &str,
    transform: Result<(String, i64), TransformError>,
    original_size: i64,
) -> (r: Result<String, OptimizeError>)
    requires
        old(store).wf(),
        old(tasks).wf(),
        counters_clear(*old(tasks), folder_path@),
    ensures
        final(store).wf(),
        final(tasks).wf(),
        final(tasks).has_task(folder_path@) == old(tasks).has_task(folder_path@),
        forall|q: Seq<char>| q != folder_path@
            ==> #[trigger] final(tasks).has_task(q) == old(tasks).has_task(q),
        forall|q: Seq<char>| q != folder_path@ && old(tasks).has_task(q)
            ==> #[trigger] final(tasks).spec_task(q) == old(tasks).spec_task(q),
        final(store).folders@ == old(store).folders@,
        final(store).media@ == old(store).media@,
        ({
            let p = folder_path@;
            let had = old(tasks).has_task(p);
            let t0 = old(tasks).spec_task(p);
            let failed_count = (had && !(t0.status is Stopped) ==> final(tasks).spec_task(p)
                == apply_event(t0, CounterEvent::Failed)) && (had && t0.status is Stopped
                ==> final(tasks).spec_task(p) == t0);
            match r {
                Ok(out_path) => {
                    &&& transform is Ok
                    &&& out_path@ == transform.unwrap().0@
                    &&& seq_has_path(old(store).folders@, p)
                    &&& ({
                        let fid = seq_folder(old(store).folders@, p).id;
                        let added = final(store).entries@.last();
                        &&& final(store).entries@ == entries_without_key(
                            old(store).entries@,
                            fid,
                            file_hash@,
                        ).push(added)
                        &&& added.folder_id == fid
                        &&& added.original_path@ == file_path@
                        &&& added.file_hash@ == file_hash@
                        &&& added.cached_path@ == transform.unwrap().0@
                        &&& added.media_type@ == media_type@
                        &&& added.file_size == original_size
                        &&& added.cached_size == transform.unwrap().1
                    })
                    &&& (had ==> final(tasks).spec_task(p) == after_complete(
                        apply_event(t0, CounterEvent::Optimized),
                    ))
                },
                Err(e) => {
                    &&& final(store).entries@ == old(store).entries@
                    &&& failed_count
                    &&& match e {
                        OptimizeError::Transform(te) => transform == Err::<(String, i64),
                            TransformError,
                        >(te),
                        OptimizeError::FolderUnregistered => transform is Ok && !seq_has_path(
                            old(store).folders@,
                            p,
                        ),
                        OptimizeError::Storage(se) => transform is Ok && seq_has_path(
                            old(store).folders@,
                            p,
                        ) && se == StoreError::StorageFull && old(store).next_id == i64::MAX,
                        _ => false,
                    }
                },
            }
        }),
        transform is Ok && seq_has_path(old(store).folders@, folder_path@) && old(store).next_id
            < i64::MAX ==> r is Ok,
{
    let (out_path, cached_size) = match transform {
        Ok(pair) => pair,
        Err(te) => {
            record_failure(tasks, folder_path);
            return Err(OptimizeError::Transform(te));
        }
    };
    let folder_id = match store.get_folder_id(folder_path) {
        Some(id) => id,
        None => {
            record_failure(tasks, folder_path);
            return Err(OptimizeError::FolderUnregistered);
        }
    };
    proof {
        // the registered row itself witnesses that the id is known
        let w = choose|w: int|
            0 <= w < store.folders@.len() && (#[trigger] store.folders@[w]).path@ == folder_path@;
        assert(store.folders@[w].id == folder_id);
        assert(seq_has_fid(store.folders@, folder_id));
    }
    match store.add_cache_entry(
        folder_id,
        file_path,
        file_hash,
        out_path.as_str(),
        media_type,
        original_size,
        cached_size,
    ) {
        Ok(()) => {}
        Err(e) => {
            proof {
                assert(e == StoreError::UnknownFolder || e == StoreError::StorageFull);
                assert(e == StoreError::StorageFull);
                assert(store.next_id == i64::MAX);
            }
            record_failure(tasks, folder_path);
            return Err(OptimizeError::Storage(e));
        }
    }
    tasks.record_event(folder_path, CounterEvent::Optimized);
    tasks.complete_if_done(folder_path);
    Ok(out_path)
}

/// Count a file failed against the folder's task, unless the task was
/// stopped (a stopped task already counted its own abort).
fn record_failure(tasks: &mut TaskManager, folder_path: &str)
    requires
        old(tasks).wf(),
        counters_clear(*old(tasks), folder_path@),
    ensures
        final(tasks).wf(),
        final(tasks).has_task(folder_path@) == old(tasks).has_task(folder_path@),
        forall|q: Seq<char>| q != folder_path@
            ==> #[trigger] final(tasks).has_task(q) == old(tasks).has_task(q),
        forall|q: Seq<char>| q != folder_path@ && old(tasks).has_task(q)
            ==> #[trigger] final(tasks).spec_task(q) == old(tasks).spec_task(q),
        old(tasks).has_task(folder_path@) && !(old(tasks).spec_task(folder_path@).status
            is Stopped) ==> final(tasks).spec_task(folder_path@) == apply_event(
            old(tasks).spec_task(folder_path@),
            CounterEvent::Failed,
        ),
        old(tasks).has_task(folder_path@) && old(tasks).spec_task(folder_path@).status is Stopped
            ==> final(tasks).spec_task(folder_path@) == old(tasks).spec_task(folder_path@),
{
    if match tasks.task_status(folder_path) {
        Some(TaskStatus::Stopped) => false,
        Some(_) => true,
        None => false,
    } {
        tasks.record_event(folder_path, CounterEvent::Failed);
    }
}

/// Idempotent caching: once every ledger row of a hash records one
/// derivative path (as the content-addressed writer guarantees), the dedup
/// lookup answers exactly that path, so a second optimization of the same
/// content short-circuits to it and never reaches the transform.
pub proof fn lemma_idempotent_caching(es: Seq<CacheEntryRow>, h: Seq<char>, q: Seq<char>)
    requires
        exists|i: int| 0 <= i < es.len() && (#[trigger] es[i]).file_hash@ == h,
        forall|i: int|
            0 <= i < es.len() && (#[trigger] es[i]).file_hash@ == h ==> es[i].cached_path@ == q,
    ensures
        first_cached_path(es, h) == Some(q),
    decreases es.len(),
{
    if es[0].file_hash@ == h {
    } else {
        let w = choose|i: int| 0 <= i < es.len() && (#[trigger] es[i]).file_hash@ == h;
        assert(es.drop_first()[w - 1] == es[w]);
        assert forall|i: int|
            0 <= i < es.drop_first().len() && (#[trigger] es.drop_first()[i]).file_hash@ == h
            implies es.drop_first()[i].cached_path@ == q by {
            assert(es.drop_first()[i] == es[i + 1]);
        }
        lemma_idempotent_caching(es.drop_first(), h, q);
    }
}

/// Progress of a whole-folder batch run: every file is counted as
/// processed, and as optimized or failed, and individual failures never
/// abort the batch.
pub struct BatchOptimizeProgress {
    pub total: usize,
    pub processed: usize,
    pub optimized: usize,
    pub cached: usize,
    pub failed: usize,
}

impl BatchOptimizeProgress {
    /// Fresh progress over a counted batch.
    pub fn new(total: usize) -> (r: BatchOptimizeProgress)
        ensures
            r.total == total,
            r.processed == 0,
            r.optimized == 0,
            r.cached == 0,
            r.failed == 0,
    {
        BatchOptimizeProgress { total, processed: 0, optimized: 0, cached: 0, failed: 0 }
    }

    /// Count one file's outcome: processed always, optimized or failed by
    /// the verdict.
    pub fn record(&mut self, succeeded: bool)
        requires
            old(self).processed < usize::MAX,
            old(self).optimized < usize::MAX,
            old(self).failed < usize::MAX,
        ensures
            final(self).total == old(self).total,
            final(self).cached == old(self).cached,
            final(self).processed == old(self).processed + 1,
            succeeded ==> final(self).optimized == old(self).optimized + 1 && final(self).failed
                == old(self).failed,
            !succeeded ==> final(self).failed == old(self).failed + 1 && final(self).optimized
                == old(self).optimized,
    {
        self.processed = self.processed + 1;
        if succeeded {
            self.optimized = self.optimized + 1;
        } else {
            self.failed = self.failed + 1;
        }
    }
}

} // verus!
