//! Per-folder batch-task coordination: one task per library folder, with
//! pause/resume/stop control, progress counters, and a registry keyed by
//! folder path. The control surface is a small state machine:
//! `Running <-> Paused` (toggle), `Running | Paused -> Stopped` (terminal),
//! `Running -> Completed` (terminal, only once every file is processed).

use vstd::prelude::*;
use vstd::string::*;
use crate::strkit::str_eq;

verus! {

#[derive(Clone, Copy, Debug, PartialEq, Eq, Structural)]
pub enum TaskStatus {
    Running,
    Paused,
    Stopped,
    Completed,
}

/// A snapshot of one task's progress.
pub struct TaskInfo {
    pub folder_path: String,
    pub total_files: usize,
    pub processed_files: usize,
    pub optimized_files: usize,
    pub failed_files: usize,
    pub status: TaskStatus,
}

/// One batch job. A task is well formed when `Completed` is only ever
/// reached with every file accounted for.
pub struct Task {
    pub info: TaskInfo,
}

/// A control call a caller can issue against a task.
#[derive(Clone, Copy, Debug, PartialEq, Eq, Structural)]
pub enum TaskCtrl {
    Pause,
    Resume,
    Stop,
}

/// A single counter increment recorded by a worker.
#[derive(Clone, Copy, Debug, PartialEq, Eq, Structural)]
pub enum CounterEvent {
    Processed,
    Optimized,
    Failed,
}

/// The task control state machine, one step.
pub open spec fn apply_ctrl(s: TaskStatus, c: TaskCtrl) -> TaskStatus {
    match c {
        TaskCtrl::Pause => if s is Running { TaskStatus::Paused } else { s },
        TaskCtrl::Resume => if s is Paused { TaskStatus::Running } else { s },
        TaskCtrl::Stop => if s is Running || s is Paused { TaskStatus::Stopped } else { s },
    }
}

/// The task control state machine, run over a whole sequence of calls.
pub open spec fn run_ctrls(s: TaskStatus, cs: Seq<TaskCtrl>) -> TaskStatus
    decreases cs.len(),
{
    if cs.len() == 0 {
        s
    } else {
        run_ctrls(apply_ctrl(s, cs[0]), cs.drop_first())
    }
}

/// One worker event applied to a snapshot. Only the named counter moves.
pub open spec fn apply_event(i: TaskInfo, e: CounterEvent) -> TaskInfo {
    match e {
        CounterEvent::Processed => TaskInfo { processed_files: (i.processed_files + 1) as usize, ..i },
        CounterEvent::Optimized => TaskInfo { optimized_files: (i.optimized_files + 1) as usize, ..i },
        CounterEvent::Failed => TaskInfo { failed_files: (i.failed_files + 1) as usize, ..i },
    }
}

/// A whole interleaving of worker events applied in order.
pub open spec fn apply_events(i: TaskInfo, evs: Seq<CounterEvent>) -> TaskInfo
    decreases evs.len(),
{
    if evs.len() == 0 {
        i
    } else {
        apply_events(apply_event(i, evs[0]), evs.drop_first())
    }
}

/// How many events of one kind an interleaving holds.
pub open spec fn count_of(evs: Seq<CounterEvent>, e: CounterEvent) -> nat
    decreases evs.len(),
{
    if evs.len() == 0 {
        0
    } else {
        count_of(evs.drop_first(), e) + if evs[0] == e { 1nat } else { 0nat }
    }
}

impl Task {
    pub open spec fn wf(self) -> bool {
        self.info.status is Completed ==> self.info.processed_files >= self.info.total_files
    }

    /// A fresh task starts Running with all counters at zero.
    pub fn new(folder_path: String, total_files: usize) -> (t: Task)
        ensures
            t.wf(),
            t.info.folder_path == folder_path,
            t.info.total_files == total_files,
            t.info.processed_files == 0,
            t.info.optimized_files == 0,
            t.info.failed_files == 0,
            t.info.status == TaskStatus::Running,
    {
        Task {
            info: TaskInfo {
                folder_path,
                total_files,
                processed_files: 0,
                optimized_files: 0,
                failed_files: 0,
                status: TaskStatus::Running,
            },
        }
    }

    pub fn increment_processed(&mut self)
        requires
            old(self).info.processed_files < usize::MAX,
        ensures
            final(self).info == apply_event(old(self).info, CounterEvent::Processed),
            final(self).info.processed_files == old(self).info.processed_files + 1,
    {
        self.info.processed_files = self.info.processed_files + 1;
    }

    pub fn increment_optimized(&mut self)
        requires
            old(self).info.optimized_files < usize::MAX,
        ensures
            final(self).info == apply_event(old(self).info, CounterEvent::Optimized),
            final(self).info.optimized_files == old(self).info.optimized_files + 1,
    {
        self.info.optimized_files = self.info.optimized_files + 1;
    }

    pub fn increment_failed(&mut self)
        requires
            old(self).info.failed_files < usize::MAX,
        ensures
            final(self).info == apply_event(old(self).info, CounterEvent::Failed),
            final(self).info.failed_files == old(self).info.failed_files + 1,
    {
        self.info.failed_files = self.info.failed_files + 1;
    }

    pub fn pause(&mut self)
        requires
            old(self).wf(),
        ensures
            final(self).wf(),
            final(self).info == (TaskInfo { status: apply_ctrl(old(self).info.status, TaskCtrl::Pause), ..old(self).info }),
    {
        if matches!(self.info.status, TaskStatus::Running) {
            self.info.status = TaskStatus::Paused;
        }
    }

    pub fn resume(&mut self)
        requires
            old(self).wf(),
        ensures
            final(self).wf(),
            final(self).info == (TaskInfo { status: apply_ctrl(old(self).info.status, TaskCtrl::Resume), ..old(self).info }),
    {
        if matches!(self.info.status, TaskStatus::Paused) {
            self.info.status = TaskStatus::Running;
        }
    }

    pub fn stop(&mut self)
        requires
            old(self).wf(),
        ensures
            final(self).wf(),
            final(self).info == (TaskInfo { status: apply_ctrl(old(self).info.status, TaskCtrl::Stop), ..old(self).info }),
    {
        if matches!(self.info.status, TaskStatus::Running | TaskStatus::Paused) {
            self.info.status = TaskStatus::Stopped;
        }
    }

    /// Mark the task Completed, but only from Running and only once every
    /// file has been processed; otherwise nothing changes.
    pub fn complete(&mut self)
        requires
            old(self).wf(),
        ensures
            final(self).wf(),
            final(self).info.status == (
                if old(self).info.status is Running
                    && old(self).info.processed_files >= old(self).info.total_files {
                    TaskStatus::Completed
                } else {
                    old(self).info.status
                }
            ),
            final(self).info == (TaskInfo { status: final(self).info.status, ..old(self).info }),
    {
        if matches!(self.info.status, TaskStatus::Running)
            && self.info.processed_files >= self.info.total_files {
            self.info.status = TaskStatus::Completed;
        }
    }

    pub fn is_paused(&self) -> (r: bool)
        ensures
            r == (self.info.status is Paused),
    {
        matches!(self.info.status, TaskStatus::Paused)
    }

    pub fn is_stopped(&self) -> (r: bool)
        ensures
            r == (self.info.status is Stopped),
    {
        matches!(self.info.status, TaskStatus::Stopped)
    }

    pub fn get_info(&self) -> (r: TaskInfo)
        ensures
            r == self.info,
    {
        TaskInfo {
            folder_path: self.info.folder_path.clone(),
            total_files: self.info.total_files,
            processed_files: self.info.processed_files,
            optimized_files: self.info.optimized_files,
            failed_files: self.info.failed_files,
            status: self.info.status,
        }
    }
}

/// Control calls leave a live (not yet completed) task live: they can never
/// produce `Completed`.
pub proof fn lemma_ctrl_never_completes(s: TaskStatus, cs: Seq<TaskCtrl>)
    requires
        !(s is Completed),
    ensures
        !(run_ctrls(s, cs) is Completed),
    decreases cs.len(),
{
    if cs.len() > 0 {
        lemma_ctrl_never_completes(apply_ctrl(s, cs[0]), cs.drop_first());
    }
}

/// Running a sequence of control calls splits at any point.
pub proof fn lemma_run_ctrls_append(s: TaskStatus, a: Seq<TaskCtrl>, b: Seq<TaskCtrl>)
    ensures
        run_ctrls(s, a + b) == run_ctrls(run_ctrls(s, a), b),
    decreases a.len(),
{
    if a.len() == 0 {
        assert(a + b =~= b);
    } else {
        assert((a + b).drop_first() =~= a.drop_first() + b);
        lemma_run_ctrls_append(apply_ctrl(s, a[0]), a.drop_first(), b);
    }
}

/// A stopped task stays stopped under every further control call.
pub proof fn lemma_stopped_stays(cs: Seq<TaskCtrl>)
    ensures
        run_ctrls(TaskStatus::Stopped, cs) == TaskStatus::Stopped,
    decreases cs.len(),
{
    if cs.len() > 0 {
        lemma_stopped_stays(cs.drop_first());
    }
}

/// For every sequence of pause/resume/stop calls around a stop, the status
/// right after the stop, and ever after, is `Stopped`.
pub proof fn lemma_stop_is_final(before: Seq<TaskCtrl>, after: Seq<TaskCtrl>)
    ensures
        run_ctrls(TaskStatus::Running, before.push(TaskCtrl::Stop)) == TaskStatus::Stopped,
        run_ctrls(TaskStatus::Running, before.push(TaskCtrl::Stop) + after) == TaskStatus::Stopped,
{
    lemma_ctrl_never_completes(TaskStatus::Running, before);
    let mid = run_ctrls(TaskStatus::Running, before);
    assert(before.push(TaskCtrl::Stop) =~= before + seq![TaskCtrl::Stop]);
    lemma_run_ctrls_append(TaskStatus::Running, before, seq![TaskCtrl::Stop]);
    let single = seq![TaskCtrl::Stop];
    let rest = single.drop_first();
    assert(single.len() == 1 && single[0] == TaskCtrl::Stop && rest.len() == 0);
    assert(run_ctrls(mid, single) == run_ctrls(apply_ctrl(mid, TaskCtrl::Stop), rest));
    assert(run_ctrls(apply_ctrl(mid, TaskCtrl::Stop), rest) == apply_ctrl(mid, TaskCtrl::Stop));
    lemma_run_ctrls_append(TaskStatus::Running, before.push(TaskCtrl::Stop), after);
    lemma_stopped_stays(after);
}

/// No lost updates: an interleaving of worker events moves each counter by
/// exactly the number of events of its kind. In particular, N workers each
/// recording C `Processed` events leave `processed_files` higher by N*C.
pub proof fn lemma_counter_consistency(i: TaskInfo, evs: Seq<CounterEvent>)
    requires
        i.processed_files + count_of(evs, CounterEvent::Processed) <= usize::MAX,
        i.optimized_files + count_of(evs, CounterEvent::Optimized) <= usize::MAX,
        i.failed_files + count_of(evs, CounterEvent::Failed) <= usize::MAX,
    ensures
        apply_events(i, evs).processed_files == i.processed_files + count_of(evs, CounterEvent::Processed),
        apply_events(i, evs).optimized_files == i.optimized_files + count_of(evs, CounterEvent::Optimized),
        apply_events(i, evs).failed_files == i.failed_files + count_of(evs, CounterEvent::Failed),
        apply_events(i, evs).total_files == i.total_files,
        apply_events(i, evs).status == i.status,
        apply_events(i, evs).folder_path == i.folder_path,
    decreases evs.len(),
{
    if evs.len() > 0 {
        lemma_counter_consistency(apply_event(i, evs[0]), evs.drop_first());
    }
}

/// An interleaving made of `Processed` events alone counts its own length.
pub proof fn lemma_all_processed_count(evs: Seq<CounterEvent>)
    requires
        forall|j: int| 0 <= j < evs.len() ==> evs[j] == CounterEvent::Processed,
    ensures
        count_of(evs, CounterEvent::Processed) == evs.len(),
    decreases evs.len(),
{
    if evs.len() > 0 {
        lemma_all_processed_count(evs.drop_first());
    }
}


/// No two registered tasks share a folder path.
pub open spec fn paths_distinct(s: Seq<Task>) -> bool {
    forall|i: int, j: int|
        0 <= i < j < s.len() ==> s[i].info.folder_path@ != s[j].info.folder_path@
}

/// Whether some task in the registry sequence carries this folder path.
pub open spec fn seq_has_task(s: Seq<Task>, p: Seq<char>) -> bool {
    exists|i: int| 0 <= i < s.len() && (#[trigger] s[i]).info.folder_path@ == p
}

/// The snapshot of the task carrying this folder path.
pub open spec fn seq_task(s: Seq<Task>, p: Seq<char>) -> TaskInfo {
    let i = choose|i: int| 0 <= i < s.len() && (#[trigger] s[i]).info.folder_path@ == p;
    s[i].info
}

/// With distinct paths, the task at a matching index is the registered one.
proof fn lemma_lookup_at(s: Seq<Task>, i: int)
    requires
        paths_distinct(s),
        0 <= i < s.len(),
    ensures
        seq_has_task(s, s[i].info.folder_path@),
        seq_task(s, s[i].info.folder_path@) == s[i].info,
{
    let p = s[i].info.folder_path@;
    assert(seq_has_task(s, p));
    let j = choose|j: int| 0 <= j < s.len() && (#[trigger] s[j]).info.folder_path@ == p;
    if i != j {
        assert(s[i].info.folder_path@ != s[j].info.folder_path@);
    }
}

/// Replacing the task at one index, keeping its folder path, leaves every
/// other folder's registration untouched.
proof fn lemma_update_keeps_others(a: Seq<Task>, b: Seq<Task>, i: int)
    requires
        paths_distinct(a),
        0 <= i < a.len(),
        b == a.update(i, b[i]),
        b.len() == a.len(),
        b[i].info.folder_path@ == a[i].info.folder_path@,
    ensures
        paths_distinct(b),
        seq_has_task(b, b[i].info.folder_path@),
        seq_task(b, b[i].info.folder_path@) == b[i].info,
        forall|q: Seq<char>| q != b[i].info.folder_path@
            ==> #[trigger] seq_has_task(b, q) == seq_has_task(a, q),
        forall|q: Seq<char>| q != b[i].info.folder_path@ && seq_has_task(a, q)
            ==> #[trigger] seq_task(b, q) == seq_task(a, q),
{
    let p = b[i].info.folder_path@;
    assert forall|k: int, l: int| 0 <= k < l < b.len()
        implies b[k].info.folder_path@ != b[l].info.folder_path@ by {
        assert(a[k].info.folder_path@ != a[l].info.folder_path@);
    }
    lemma_lookup_at(b, i);
    assert forall|q: Seq<char>| q != p
        implies #[trigger] seq_has_task(b, q) == seq_has_task(a, q) by {
        if seq_has_task(a, q) {
            let j = choose|j: int| 0 <= j < a.len() && (#[trigger] a[j]).info.folder_path@ == q;
            assert(j != i);
            assert(b[j].info.folder_path@ == q);
        }
        if seq_has_task(b, q) {
            let j = choose|j: int| 0 <= j < b.len() && (#[trigger] b[j]).info.folder_path@ == q;
            assert(j != i);
            assert(a[j].info.folder_path@ == q);
        }
    }
    assert forall|q: Seq<char>| q != p && seq_has_task(a, q)
        implies #[trigger] seq_task(b, q) == seq_task(a, q) by {
        let j = choose|j: int| 0 <= j < a.len() && (#[trigger] a[j]).info.folder_path@ == q;
        assert(j != i);
        lemma_lookup_at(a, j);
        lemma_lookup_at(b, j);
    }
}

/// Appending a task under a fresh folder path registers it and leaves every
/// other folder's registration untouched.
proof fn lemma_push_keeps_others(a: Seq<Task>, t: Task)
    requires
        paths_distinct(a),
        !seq_has_task(a, t.info.folder_path@),
    ensures
        paths_distinct(a.push(t)),
        seq_has_task(a.push(t), t.info.folder_path@),
        seq_task(a.push(t), t.info.folder_path@) == t.info,
        forall|q: Seq<char>| q != t.info.folder_path@
            ==> #[trigger] seq_has_task(a.push(t), q) == seq_has_task(a, q),
        forall|q: Seq<char>| q != t.info.folder_path@ && seq_has_task(a, q)
            ==> #[trigger] seq_task(a.push(t), q) == seq_task(a, q),
{
    let b = a.push(t);
    let p = t.info.folder_path@;
    assert forall|k: int, l: int| 0 <= k < l < b.len()
        implies b[k].info.folder_path@ != b[l].info.folder_path@ by {
        if l < a.len() {
            assert(a[k].info.folder_path@ != a[l].info.folder_path@);
        } else {
            assert(b[l] == t);
            assert(a[k].info.folder_path@ != p);
        }
    }
    assert(b[a.len() as int] == t);
    lemma_lookup_at(b, a.len() as int);
    assert forall|q: Seq<char>| q != p
        implies #[trigger] seq_has_task(b, q) == seq_has_task(a, q) by {
        if seq_has_task(a, q) {
            let j = choose|j: int| 0 <= j < a.len() && (#[trigger] a[j]).info.folder_path@ == q;
            assert(b[j].info.folder_path@ == q);
        }
        if seq_has_task(b, q) {
            let j = choose|j: int| 0 <= j < b.len() && (#[trigger] b[j]).info.folder_path@ == q;
            assert(j != a.len() as int);
            assert(a[j].info.folder_path@ == q);
        }
    }
    assert forall|q: Seq<char>| q != p && seq_has_task(a, q)
        implies #[trigger] seq_task(b, q) == seq_task(a, q) by {
        let j = choose|j: int| 0 <= j < a.len() && (#[trigger] a[j]).info.folder_path@ == q;
        lemma_lookup_at(a, j);
        lemma_lookup_at(b, j);
    }
}

/// Removing the task at one index unregisters its folder path and leaves
/// every other folder's registration untouched.
proof fn lemma_remove_keeps_others(a: Seq<Task>, i: int)
    requires
        paths_distinct(a),
        0 <= i < a.len(),
    ensures
        paths_distinct(a.remove(i)),
        !seq_has_task(a.remove(i), a[i].info.folder_path@),
        forall|q: Seq<char>| q != a[i].info.folder_path@
            ==> #[trigger] seq_has_task(a.remove(i), q) == seq_has_task(a, q),
        forall|q: Seq<char>| q != a[i].info.folder_path@ && seq_has_task(a, q)
            ==> #[trigger] seq_task(a.remove(i), q) == seq_task(a, q),
{
    let b = a.remove(i);
    let p = a[i].info.folder_path@;
    let shift = |j: int| if j < i { j } else { j + 1 };
    assert forall|k: int, l: int| 0 <= k < l < b.len()
        implies b[k].info.folder_path@ != b[l].info.folder_path@ by {
        assert(b[k] == a[shift(k)]);
        assert(b[l] == a[shift(l)]);
        assert(a[shift(k)].info.folder_path@ != a[shift(l)].info.folder_path@);
    }
    if seq_has_task(b, p) {
        let j = choose|j: int| 0 <= j < b.len() && (#[trigger] b[j]).info.folder_path@ == p;
        assert(b[j] == a[shift(j)]);
        assert(shift(j) != i);
        assert(a[shift(j)].info.folder_path@ != a[i].info.folder_path@);
    }
    assert forall|q: Seq<char>| q != p
        implies #[trigger] seq_has_task(b, q) == seq_has_task(a, q) by {
        if seq_has_task(a, q) {
            let j = choose|j: int| 0 <= j < a.len() && (#[trigger] a[j]).info.folder_path@ == q;
            assert(j != i);
            if j < i {
                assert(b[j] == a[j]);
            } else {
                assert(b[j - 1] == a[j]);
            }
        }
        if seq_has_task(b, q) {
            let j = choose|j: int| 0 <= j < b.len() && (#[trigger] b[j]).info.folder_path@ == q;
            assert(b[j] == a[shift(j)]);
        }
    }
    assert forall|q: Seq<char>| q != p && seq_has_task(a, q)
        implies #[trigger] seq_task(b, q) == seq_task(a, q) by {
        let j = choose|j: int| 0 <= j < a.len() && (#[trigger] a[j]).info.folder_path@ == q;
        assert(j != i);
        lemma_lookup_at(a, j);
        if j < i {
            assert(b[j] == a[j]);
            lemma_lookup_at(b, j);
        } else {
            assert(b[j - 1] == a[j]);
            lemma_lookup_at(b, j - 1);
        }
    }
}

/// The in-memory registry of tasks, at most one per folder path.
pub struct TaskManager {
    pub tasks: Vec<Task>,
}

impl TaskManager {
    pub open spec fn wf(self) -> bool {
        &&& paths_distinct(self.tasks@)
        &&& forall|i: int| 0 <= i < self.tasks@.len() ==> (#[trigger] self.tasks@[i]).wf()
    }

    /// Whether a task is registered for this folder path.
    pub open spec fn has_task(self, p: Seq<char>) -> bool {
        seq_has_task(self.tasks@, p)
    }

    /// The registered task's snapshot for this folder path.
    pub open spec fn spec_task(self, p: Seq<char>) -> TaskInfo {
        seq_task(self.tasks@, p)
    }

    pub fn new() -> (m: TaskManager)
        ensures
            m.wf(),
            m.tasks@.len() == 0,
            forall|p: Seq<char>| !m.has_task(p),
    {
        TaskManager { tasks: Vec::new() }
    }

    /// Index of the task registered for this path, if any.
    pub(crate) fn find_index(&self, folder_path: &str) -> (r: Option<usize>)
        ensures
            match r {
                Some(i) => i < self.tasks@.len() && self.tasks@[i as int].info.folder_path@ == folder_path@,
                None => !self.has_task(folder_path@),
            },
    {
        for i in 0..self.tasks.len()
            invariant
                forall|j: int| 0 <= j < i ==> (#[trigger] self.tasks@[j]).info.folder_path@ != folder_path@,
        {
            if str_eq(self.tasks[i].info.folder_path.as_str(), folder_path) {
                return Some(i);
            }
        }
        None
    }

    /// Register a fresh Running task for this folder, replacing any task the
    /// folder already had. Tasks of other folders are untouched.
    pub fn add_task(&mut self, folder_path: String, total_files: usize)
        requires
            old(self).wf(),
        ensures
            final(self).wf(),
            final(self).has_task(folder_path@),
            final(self).spec_task(folder_path@) == (TaskInfo {
                folder_path: folder_path,
                total_files: total_files,
                processed_files: 0,
                optimized_files: 0,
                failed_files: 0,
                status: TaskStatus::Running,
            }),
            forall|q: Seq<char>| q != folder_path@
                ==> #[trigger] final(self).has_task(q) == old(self).has_task(q),
            forall|q: Seq<char>| q != folder_path@ && old(self).has_task(q)
                ==> #[trigger] final(self).spec_task(q) == old(self).spec_task(q),
    {
        let ghost a = self.tasks@;
        let t = Task::new(folder_path, total_files);
        match self.find_index(t.info.folder_path.as_str()) {
            Some(i) => {
                let ghost gi = i as int;
                let slot = &mut self.tasks[i];
                *slot = t;
                proof {
                    assert(self.tasks@ == a.update(gi, self.tasks@[gi]));
                    lemma_update_keeps_others(a, self.tasks@, gi);
                }
            }
            None => {
                self.tasks.push(t);
                proof {
                    lemma_push_keeps_others(a, self.tasks@.last());
                    assert(self.tasks@ == a.push(self.tasks@.last()));
                }
            }
        }
    }

    /// Drop the task registered for this folder, if any.
    pub fn remove_task(&mut self, folder_path: &str)
        requires
            old(self).wf(),
        ensures
            final(self).wf(),
            !final(self).has_task(folder_path@),
            forall|q: Seq<char>| q != folder_path@
                ==> #[trigger] final(self).has_task(q) == old(self).has_task(q),
            forall|q: Seq<char>| q != folder_path@ && old(self).has_task(q)
                ==> #[trigger] final(self).spec_task(q) == old(self).spec_task(q),
    {
        let ghost a = self.tasks@;
        match self.find_index(folder_path) {
            Some(i) => {
                let ghost gi = i as int;
                self.tasks.remove(i);
                proof {
                    lemma_remove_keeps_others(a, gi);
                    assert(self.tasks@ == a.remove(gi));
                }
            }
            None => {}
        }
    }

    /// Borrow the task registered for this folder.
    pub fn get_task(&self, folder_path: &str) -> (r: Option<&Task>)
        requires
            self.wf(),
        ensures
            r is Some <==> self.has_task(folder_path@),
            r is Some ==> r.unwrap().info == self.spec_task(folder_path@),
    {
        match self.find_index(folder_path) {
            Some(i) => {
                proof {
                    lemma_lookup_at(self.tasks@, i as int);
                }
                Some(&self.tasks[i])
            }
            None => None,
        }
    }

    /// True exactly when a task exists for the folder and is still live
    /// (Running or Paused).
    pub fn has_running_task(&self, folder_path: &str) -> (r: bool)
        requires
            self.wf(),
        ensures
            r == (self.has_task(folder_path@)
                && (self.spec_task(folder_path@).status is Running
                    || self.spec_task(folder_path@).status is Paused)),
    {
        match self.find_index(folder_path) {
            Some(i) => {
                proof {
                    lemma_lookup_at(self.tasks@, i as int);
                }
                matches!(self.tasks[i].info.status, TaskStatus::Running | TaskStatus::Paused)
            }
            None => false,
        }
    }

    /// Snapshots of every registered task, in registry order.
    pub fn get_all_tasks(&self) -> (r: Vec<TaskInfo>)
        ensures
            r@.len() == self.tasks@.len(),
            forall|i: int| 0 <= i < r@.len() ==> r@[i] == self.tasks@[i].info,
    {
        let mut out: Vec<TaskInfo> = Vec::new();
        for i in 0..self.tasks.len()
            invariant
                out@.len() == i,
                forall|j: int| 0 <= j < i ==> out@[j] == self.tasks@[j].info,
        {
            out.push(self.tasks[i].get_info());
        }
        out
    }

    /// Apply one control call to the folder's task; `TaskNotFound` when no
    /// task is registered for the path.
    fn ctrl_task(&mut self, folder_path: &str, c: TaskCtrl) -> (r: Result<(), TaskError>)
        requires
            old(self).wf(),
        ensures
            final(self).wf(),
            r is Ok <==> old(self).has_task(folder_path@),
            r is Err ==> final(self).tasks@ == old(self).tasks@,
            r is Ok ==> final(self).spec_task(folder_path@) == (TaskInfo {
                status: apply_ctrl(old(self).spec_task(folder_path@).status, c),
                ..old(self).spec_task(folder_path@)
            }),
            forall|q: Seq<char>| q != folder_path@
                ==> #[trigger] final(self).has_task(q) == old(self).has_task(q),
            forall|q: Seq<char>| q != folder_path@ && old(self).has_task(q)
                ==> #[trigger] final(self).spec_task(q) == old(self).spec_task(q),
            final(self).has_task(folder_path@) == old(self).has_task(folder_path@),
    {
        let ghost a = self.tasks@;
        match self.find_index(folder_path) {
            Some(i) => {
                let ghost gi = i as int;
                proof {
                    lemma_lookup_at(a, gi);
                }
                let slot = &mut self.tasks[i];
                match c {
                    TaskCtrl::Pause => slot.pause(),
                    TaskCtrl::Resume => slot.resume(),
                    TaskCtrl::Stop => slot.stop(),
                }
                proof {
                    assert(self.tasks@ == a.update(gi, self.tasks@[gi]));
                    lemma_update_keeps_others(a, self.tasks@, gi);
                }
                Ok(())
            }
            None => Err(TaskError::TaskNotFound),
        }
    }

    /// Pause the folder's task (Running -> Paused; no effect otherwise).
    pub fn pause_task(&mut self, folder_path: &str) -> (r: Result<(), TaskError>)
        requires
            old(self).wf(),
        ensures
            final(self).wf(),
            r is Ok <==> old(self).has_task(folder_path@),
            r is Err ==> final(self).tasks@ == old(self).tasks@,
            r is Ok ==> final(self).spec_task(folder_path@) == (TaskInfo {
                status: apply_ctrl(old(self).spec_task(folder_path@).status, TaskCtrl::Pause),
                ..old(self).spec_task(folder_path@)
            }),
            forall|q: Seq<char>| q != folder_path@
                ==> #[trigger] final(self).has_task(q) == old(self).has_task(q),
            forall|q: Seq<char>| q != folder_path@ && old(self).has_task(q)
                ==> #[trigger] final(self).spec_task(q) == old(self).spec_task(q),
            final(self).has_task(folder_path@) == old(self).has_task(folder_path@),
    {
        self.ctrl_task(folder_path, TaskCtrl::Pause)
    }

    /// Resume the folder's task (Paused -> Running; no effect otherwise).
    /// A task resumed with every file already processed goes straight to
    /// Completed, so a pause over the final file cannot strand the batch.
    pub fn resume_task(&mut self, folder_path: &str) -> (r: Result<(), TaskError>)
        requires
            old(self).wf(),
        ensures
            final(self).wf(),
            r is Ok <==> old(self).has_task(folder_path@),
            r is Err ==> final(self).tasks@ == old(self).tasks@,
            r is Ok ==> final(self).spec_task(folder_path@) == after_complete(TaskInfo {
                status: apply_ctrl(old(self).spec_task(folder_path@).status, TaskCtrl::Resume),
                ..old(self).spec_task(folder_path@)
            }),
            forall|q: Seq<char>| q != folder_path@
                ==> #[trigger] final(self).has_task(q) == old(self).has_task(q),
            forall|q: Seq<char>| q != folder_path@ && old(self).has_task(q)
                ==> #[trigger] final(self).spec_task(q) == old(self).spec_task(q),
            final(self).has_task(folder_path@) == old(self).has_task(folder_path@),
    {
        match self.ctrl_task(folder_path, TaskCtrl::Resume) {
            Ok(()) => {
                self.complete_if_done(folder_path);
                Ok(())
            }
            Err(e) => Err(e),
        }
    }

    /// Stop the folder's task (Running | Paused -> Stopped, terminal).
    pub fn stop_task(&mut self, folder_path: &str) -> (r: Result<(), TaskError>)
        requires
            old(self).wf(),
        ensures
            final(self).wf(),
            r is Ok <==> old(self).has_task(folder_path@),
            r is Err ==> final(self).tasks@ == old(self).tasks@,
            r is Ok ==> final(self).spec_task(folder_path@) == (TaskInfo {
                status: apply_ctrl(old(self).spec_task(folder_path@).status, TaskCtrl::Stop),
                ..old(self).spec_task(folder_path@)
            }),
            forall|q: Seq<char>| q != folder_path@
                ==> #[trigger] final(self).has_task(q) == old(self).has_task(q),
            forall|q: Seq<char>| q != folder_path@ && old(self).has_task(q)
                ==> #[trigger] final(self).spec_task(q) == old(self).spec_task(q),
            final(self).has_task(folder_path@) == old(self).has_task(folder_path@),
    {
        self.ctrl_task(folder_path, TaskCtrl::Stop)
    }
}

/// Why a control call against the registry failed.
#[derive(Clone, Copy, Debug, PartialEq, Eq, Structural)]
pub enum TaskError {
    TaskNotFound,
}


/// What `Task::complete` leaves behind: Completed exactly when the task was
/// Running with every file processed.
pub open spec fn after_complete(i: TaskInfo) -> TaskInfo {
    if i.status is Running && i.processed_files >= i.total_files {
        TaskInfo { status: TaskStatus::Completed, ..i }
    } else {
        i
    }
}

impl TaskManager {
    /// The registered task's status for this folder path.
    pub fn task_status(&self, folder_path: &str) -> (r: Option<TaskStatus>)
        requires
            self.wf(),
        ensures
            r is Some <==> self.has_task(folder_path@),
            r is Some ==> r.unwrap() == self.spec_task(folder_path@).status,
    {
        match self.find_index(folder_path) {
            Some(i) => {
                proof {
                    lemma_lookup_at(self.tasks@, i as int);
                }
                Some(self.tasks[i].info.status)
            }
            None => None,
        }
    }

    /// Record one worker event against the folder's task; reports whether a
    /// task was registered. Tasks of other folders are untouched.
    pub fn record_event(&mut self, folder_path: &str, e: CounterEvent) -> (r: bool)
        requires
            old(self).wf(),
            old(self).has_task(folder_path@) ==> {
                &&& old(self).spec_task(folder_path@).processed_files < usize::MAX
                &&& old(self).spec_task(folder_path@).optimized_files < usize::MAX
                &&& old(self).spec_task(folder_path@).failed_files < usize::MAX
            },
        ensures
            final(self).wf(),
            r == old(self).has_task(folder_path@),
            final(self).has_task(folder_path@) == old(self).has_task(folder_path@),
            old(self).has_task(folder_path@) ==> final(self).spec_task(folder_path@)
                == apply_event(old(self).spec_task(folder_path@), e),
            !old(self).has_task(folder_path@) ==> final(self).tasks@ == old(self).tasks@,
            forall|q: Seq<char>| q != folder_path@
                ==> #[trigger] final(self).has_task(q) == old(self).has_task(q),
            forall|q: Seq<char>| q != folder_path@ && old(self).has_task(q)
                ==> #[trigger] final(self).spec_task(q) == old(self).spec_task(q),
    {
        let ghost a = self.tasks@;
        match self.find_index(folder_path) {
            Some(i) => {
                let ghost gi = i as int;
                proof {
                    lemma_lookup_at(a, gi);
                }
                let slot = &mut self.tasks[i];
                match e {
                    CounterEvent::Processed => slot.increment_processed(),
                    CounterEvent::Optimized => slot.increment_optimized(),
                    CounterEvent::Failed => slot.increment_failed(),
                }
                proof {
                    assert(self.tasks@ == a.update(gi, self.tasks@[gi]));
                    lemma_update_keeps_others(a, self.tasks@, gi);
                }
                true
            }
            None => false,
        }
    }

    /// Mark the folder's task Completed when it is Running with every file
    /// processed; otherwise nothing changes.
    pub fn complete_if_done(&mut self, folder_path: &str)
        requires
            old(self).wf(),
        ensures
            final(self).wf(),
            final(self).has_task(folder_path@) == old(self).has_task(folder_path@),
            old(self).has_task(folder_path@) ==> final(self).spec_task(folder_path@)
                == after_complete(old(self).spec_task(folder_path@)),
            !old(self).has_task(folder_path@) ==> final(self).tasks@ == old(self).tasks@,
            forall|q: Seq<char>| q != folder_path@
                ==> #[trigger] final(self).has_task(q) == old(self).has_task(q),
            forall|q: Seq<char>| q != folder_path@ && old(self).has_task(q)
                ==> #[trigger] final(self).spec_task(q) == old(self).spec_task(q),
    {
        let ghost a = self.tasks@;
        match self.find_index(folder_path) {
            Some(i) => {
                let ghost gi = i as int;
                proof {
                    lemma_lookup_at(a, gi);
                }
                let slot = &mut self.tasks[i];
                slot.complete();
                proof {
                    assert(self.tasks@ == a.update(gi, self.tasks@[gi]));
                    lemma_update_keeps_others(a, self.tasks@, gi);
                }
            }
            None => {}
        }
    }
}

} // verus!
