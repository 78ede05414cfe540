//! Ingestion tasks: their stages and progress, and the registry that maps
//! task ids to task states. Progress is kept in ten-thousandths, so 10000 is
//! a finished task.

use vstd::prelude::*;
use crate::resource::ArchiveProvider;

verus! {

/// Progress of a finished task, in ten-thousandths.
pub const FULL_PROGRESS: u32 = 10000;

/// The phase an ingestion task is in.
#[derive(Clone, Copy, Debug, PartialEq, Eq, Structural)]
pub enum ArchiveTaskStage {
    Preparing,
    Downloading,
    Extracting,
    Saving,
    Completed,
    Failed,
}

impl ArchiveTaskStage {
    pub open spec fn is_finished_spec(&self) -> bool {
        *self == ArchiveTaskStage::Completed || *self == ArchiveTaskStage::Failed
    }

    /// The place of the stage in the order Preparing, Downloading, Extracting,
    /// Saving, Completed; Failed comes last, as every stage may fail.
    pub open spec fn rank_spec(&self) -> nat {
        match self {
            ArchiveTaskStage::Preparing => 0,
            ArchiveTaskStage::Downloading => 1,
            ArchiveTaskStage::Extracting => 2,
            ArchiveTaskStage::Saving => 3,
            ArchiveTaskStage::Completed => 4,
            ArchiveTaskStage::Failed => 5,
        }
    }

    /// The place of the stage (see `rank_spec`).
    pub fn rank(&self) -> (r: u8)
        ensures
            r == self.rank_spec(),
    {
        match self {
            ArchiveTaskStage::Preparing => 0,
            ArchiveTaskStage::Downloading => 1,
            ArchiveTaskStage::Extracting => 2,
            ArchiveTaskStage::Saving => 3,
            ArchiveTaskStage::Completed => 4,
            ArchiveTaskStage::Failed => 5,
        }
    }

    /// Whether the stage is terminal (completed or failed).
    pub fn is_finished(&self) -> (r: bool)
        ensures
            r == self.is_finished_spec(),
    {
        match self {
            ArchiveTaskStage::Completed | ArchiveTaskStage::Failed => true,
            _ => false,
        }
    }
}

/// Progress of a task that has just been submitted.
pub const PREPARING_PROGRESS: u32 = 500;

/// Progress when downloading starts.
pub const DOWNLOADING_PROGRESS: u32 = 1000;

/// Progress when extraction starts, which is where downloading ends.
pub const EXTRACTING_PROGRESS: u32 = 8500;

/// Progress when saving starts, which is where extraction ends.
pub const SAVING_PROGRESS: u32 = 9500;

/// Task progress while downloading, from the downloaded fraction in
/// ten-thousandths: three quarters of it past the start of the stage.
pub open spec fn downloading_progress_spec(fraction: int) -> int {
    DOWNLOADING_PROGRESS + fraction * 3 / 4
}

/// Task progress after `index` of `total` merged keys: a tenth of the
/// extracted fraction past the start of the stage.
pub open spec fn extracting_progress_spec(index: int, total: int) -> int {
    if total == 0 {
        SAVING_PROGRESS as int
    } else {
        EXTRACTING_PROGRESS + index * 1000 / total
    }
}

/// Task progress while downloading (see `downloading_progress_spec`).
pub fn downloading_progress(fraction: u32) -> (r: u32)
    requires
        fraction <= 10000,
    ensures
        r == downloading_progress_spec(fraction as int),
        r <= EXTRACTING_PROGRESS,
{
    DOWNLOADING_PROGRESS + fraction / 4 * 3 + (fraction % 4) * 3 / 4
}

/// Task progress while merging extracted keys (see `extracting_progress_spec`).
pub fn extracting_progress(index: usize, total: usize) -> (r: u32)
    requires
        index <= total,
    ensures
        r == extracting_progress_spec(index as int, total as int),
        r <= SAVING_PROGRESS,
{
    if total == 0 {
        return SAVING_PROGRESS;
    }
    let part = (index as u128) * 1000 / (total as u128);
    proof {
        assert((index as int * 1000) / (total as int) <= 1000) by (nonlinear_arith)
            requires
                index <= total,
                total > 0,
        ;
    }
    EXTRACTING_PROGRESS + part as u32
}

/// Progress reported along one run of the pipeline never goes down: the start
/// of each stage, the steps within downloading and extraction, and completion
/// come in non-decreasing order and end at full progress.
pub proof fn lemma_pipeline_progress_ordered(f1: int, f2: int, i1: int, i2: int, total: int)
    requires
        0 <= f1 <= f2 <= 10000,
        0 <= i1 <= i2 <= total,
    ensures
        PREPARING_PROGRESS <= DOWNLOADING_PROGRESS,
        DOWNLOADING_PROGRESS <= downloading_progress_spec(f1),
        downloading_progress_spec(f1) <= downloading_progress_spec(f2),
        downloading_progress_spec(f2) <= EXTRACTING_PROGRESS,
        EXTRACTING_PROGRESS <= extracting_progress_spec(i1, total),
        extracting_progress_spec(i1, total) <= extracting_progress_spec(i2, total),
        extracting_progress_spec(i2, total) <= SAVING_PROGRESS,
        SAVING_PROGRESS <= FULL_PROGRESS,
{
    if total > 0 {
        assert(i1 * 1000 / total <= i2 * 1000 / total) by (nonlinear_arith)
            requires
                0 <= i1 <= i2,
                total > 0,
        ;
        assert(i2 * 1000 / total <= 1000) by (nonlinear_arith)
            requires
                0 <= i2 <= total,
                total > 0,
        ;
    }
}

/// A snapshot of one ingestion task.
#[derive(Clone, Copy, Debug, PartialEq, Eq, Structural)]
pub struct ArchiveTask {
    pub stage: ArchiveTaskStage,
    /// Progress in ten-thousandths, at most `FULL_PROGRESS`.
    pub progress: u32,
    /// The id of the stored resource, once the task has completed.
    pub mod_id: Option<i32>,
}

impl ArchiveTask {
    /// A task that has just been submitted.
    pub fn preparing() -> (r: ArchiveTask)
        ensures
            r == (ArchiveTask { stage: ArchiveTaskStage::Preparing, progress: PREPARING_PROGRESS, mod_id: None }),
    {
        ArchiveTask { stage: ArchiveTaskStage::Preparing, progress: PREPARING_PROGRESS, mod_id: None }
    }
}

/// The id of the task for a resource: the provider's name, a dash, and the
/// resource identifier.
pub open spec fn task_id_spec(provider: ArchiveProvider, identifier: Seq<char>) -> Seq<char> {
    provider.name_spec() + "-"@ + identifier
}

/// Derives the id of the task for a resource, so that a resubmission finds
/// the running task.
pub fn task_id(provider: &ArchiveProvider, identifier: &str) -> (r: String)
    ensures
        r@ == task_id_spec(*provider, identifier@),
{
    let mut id = provider.name().to_owned();
    id.append("-");
    id.append(identifier);
    id
}

/// What the registry holds for `id`, read from its pairs.
pub open spec fn lookup(entries: Seq<(String, ArchiveTask)>, id: Seq<char>) -> Option<ArchiveTask> {
    if exists|i: int| 0 <= i < entries.len() && (#[trigger] entries[i]).0@ == id {
        Some(entries[choose|i: int| 0 <= i < entries.len() && (#[trigger] entries[i]).0@ == id].1)
    } else {
        None
    }
}

/// The task after an update. A finished task stays as it is. Otherwise the
/// stage moves to the given one unless that one comes earlier, and progress
/// becomes the larger of the old and the new.
pub open spec fn advanced(t: ArchiveTask, stage: Option<ArchiveTaskStage>, progress: u32) -> ArchiveTask {
    if t.stage.is_finished_spec() {
        t
    } else {
        ArchiveTask {
            stage: match stage {
                Some(s) => if s.rank_spec() >= t.stage.rank_spec() {
                    s
                } else {
                    t.stage
                },
                None => t.stage,
            },
            progress: if progress > t.progress {
                progress
            } else {
                t.progress
            },
            mod_id: t.mod_id,
        }
    }
}

/// The task once its resource is stored under `mod_id`: completed at full
/// progress, unless it had already finished.
pub open spec fn completed(t: ArchiveTask, mod_id: i32) -> ArchiveTask {
    if t.stage.is_finished_spec() {
        t
    } else {
        ArchiveTask { stage: ArchiveTaskStage::Completed, progress: FULL_PROGRESS, mod_id: Some(mod_id) }
    }
}

/// The process-wide table of ingestion tasks, keyed by task id. Callers that
/// share it between threads guard it with one lock.
pub struct TaskRegistry {
    entries: Vec<(String, ArchiveTask)>,
}

impl View for TaskRegistry {
    type V = Map<Seq<char>, ArchiveTask>;

    closed spec fn view(&self) -> Map<Seq<char>, ArchiveTask> {
        Map::new(
            |id: Seq<char>| lookup(self.entries@, id) is Some,
            |id: Seq<char>| lookup(self.entries@, id)->Some_0,
        )
    }
}

/// The registry after `id` is offered `task`: unchanged when `id` is there.
pub open spec fn submitted(
    tasks: Map<Seq<char>, ArchiveTask>,
    id: Seq<char>,
    task: ArchiveTask,
) -> Map<Seq<char>, ArchiveTask> {
    if tasks.contains_key(id) {
        tasks
    } else {
        tasks.insert(id, task)
    }
}

impl TaskRegistry {
    /// No two pairs share an id, and no progress exceeds `FULL_PROGRESS`.
    pub closed spec fn wf(&self) -> bool {
        &&& forall|a: int, b: int|
            0 <= a < self.entries@.len() && 0 <= b < self.entries@.len() && a != b
                ==> self.entries@[a].0@ != self.entries@[b].0@
        &&& forall|a: int| 0 <= a < self.entries@.len() ==> (#[trigger] self.entries@[a]).1.progress <= FULL_PROGRESS
    }

    /// The progress of every registered task is at most `FULL_PROGRESS`.
    pub proof fn lemma_progress_bounded(&self, id: Seq<char>)
        requires
            self.wf(),
            self@.contains_key(id),
        ensures
            self@[id].progress <= FULL_PROGRESS,
    {
        let c = choose|c: int| 0 <= c < self.entries@.len() && (#[trigger] self.entries@[c]).0@ == id;
        self.lemma_lookup_at(c);
    }

    proof fn lemma_lookup_at(&self, i: int)
        requires
            self.wf(),
            0 <= i < self.entries@.len(),
        ensures
            lookup(self.entries@, self.entries@[i].0@) == Some(self.entries@[i].1),
    {
        let id = self.entries@[i].0@;
        let c = choose|c: int| 0 <= c < self.entries@.len() && (#[trigger] self.entries@[c]).0@ == id;
        assert(c == i);
    }

    /// An empty registry.
    pub fn new() -> (r: TaskRegistry)
        ensures
            r.wf(),
            r@ == Map::<Seq<char>, ArchiveTask>::empty(),
    {
        let r = TaskRegistry { entries: Vec::new() };
        assert(r@ =~= Map::<Seq<char>, ArchiveTask>::empty());
        r
    }

    fn find(&self, id: &str) -> (r: Option<usize>)
        requires
            self.wf(),
        ensures
            match r {
                Some(i) => i < self.entries@.len() && self.entries@[i as int].0@ == id@,
                None => !self@.contains_key(id@),
            },
    {
        let mut i: usize = 0;
        while i < self.entries.len()
            invariant
                0 <= i <= self.entries@.len(),
                forall|a: int| 0 <= a < i ==> (#[trigger] self.entries@[a]).0@ != id@,
            decreases self.entries.len() - i,
        {
            if crate::text::same_text(self.entries[i].0.as_str(), id) {
                return Some(i);
            }
            i = i + 1;
        }
        None
    }

    /// Inserts `task` under `id` unless a task is already there; returns
    /// whether it was inserted.
    pub fn submit(&mut self, id: &str, task: ArchiveTask) -> (created: bool)
        requires
            old(self).wf(),
            task.progress <= FULL_PROGRESS,
        ensures
            final(self).wf(),
            created == !old(self)@.contains_key(id@),
            final(self)@ == submitted(old(self)@, id@, task),
    {
        match self.find(id) {
            Some(_) => false,
            None => {
                let ghost old_entries = self.entries@;
                self.entries.push((id.to_owned(), task));
                proof {
                    let n = old_entries.len() as int;
                    assert forall|k: Seq<char>| #[trigger] lookup(self.entries@, k) == (if k == id@ {
                        Some(task)
                    } else {
                        lookup(old_entries, k)
                    }) by {
                        if k == id@ {
                            self.lemma_lookup_at(n);
                        } else if exists|i: int| 0 <= i < old_entries.len() && (#[trigger] old_entries[i]).0@ == k {
                            let i = choose|i: int| 0 <= i < old_entries.len() && (#[trigger] old_entries[i]).0@ == k;
                            assert(self.entries@[i] == old_entries[i]);
                            self.lemma_lookup_at(i);
                            let c = choose|c: int| 0 <= c < old_entries.len() && (#[trigger] old_entries[c]).0@ == k;
                            assert(c == i);
                        } else {
                            assert forall|i: int| 0 <= i < self.entries@.len() implies (#[trigger] self.entries@[i]).0@ != k by {
                                if i < n {
                                    assert(self.entries@[i] == old_entries[i]);
                                }
                            }
                        }
                    }
                    assert(self@ =~= submitted(old(self)@, id@, task));
                }
                true
            },
        }
    }

    /// The task under `id`, if any.
    pub fn get(&self, id: &str) -> (r: Option<ArchiveTask>)
        requires
            self.wf(),
        ensures
            r == (if self@.contains_key(id@) {
                Some(self@[id@])
            } else {
                None
            }),
    {
        match self.find(id) {
            Some(i) => {
                proof {
                    self.lemma_lookup_at(i as int);
                }
                Some(self.entries[i].1)
            },
            None => None,
        }
    }

    /// Replaces the task under `id`, which is there.
    fn set_task(&mut self, i: usize, task: ArchiveTask)
        requires
            old(self).wf(),
            task.progress <= FULL_PROGRESS,
            i < old(self).entries@.len(),
        ensures
            final(self).wf(),
            final(self)@ == old(self)@.insert(old(self).entries@[i as int].0@, task),
    {
        let ghost old_entries = self.entries@;
        let ghost id = old_entries[i as int].0@;
        let name = self.entries[i].0.clone();
        self.entries.set(i, (name, task));
        proof {
            assert forall|a: int, b: int|
                0 <= a < self.entries@.len() && 0 <= b < self.entries@.len() && a != b
                    implies self.entries@[a].0@ != self.entries@[b].0@ by {
                assert(old_entries[a].0@ == self.entries@[a].0@);
                assert(old_entries[b].0@ == self.entries@[b].0@);
            }
            assert forall|k: Seq<char>| #[trigger] lookup(self.entries@, k) == (if k == id {
                Some(task)
            } else {
                lookup(old_entries, k)
            }) by {
                if k == id {
                    self.lemma_lookup_at(i as int);
                } else if exists|a: int| 0 <= a < old_entries.len() && (#[trigger] old_entries[a]).0@ == k {
                    let a = choose|a: int| 0 <= a < old_entries.len() && (#[trigger] old_entries[a]).0@ == k;
                    assert(self.entries@[a] == old_entries[a]);
                    self.lemma_lookup_at(a);
                    old(self).lemma_lookup_at(a);
                } else {
                    assert forall|a: int| 0 <= a < self.entries@.len() implies (#[trigger] self.entries@[a]).0@ != k by {
                        assert(self.entries@[a].0@ == old_entries[a].0@);
                    }
                }
            }
            assert(self@ =~= old(self)@.insert(id, task));
        }
    }

    /// Moves the task under `id` to `stage` when one is given and it does not
    /// come earlier, and raises its progress to `progress` unless it is already
    /// higher; a finished task stays as it is. The task must be registered.
    pub fn advance(&mut self, id: &str, stage: Option<ArchiveTaskStage>, progress: u32)
        requires
            old(self).wf(),
            old(self)@.contains_key(id@),
            progress <= FULL_PROGRESS,
        ensures
            final(self).wf(),
            final(self)@ == old(self)@.insert(id@, advanced(old(self)@[id@], stage, progress)),
    {
        match self.find(id) {
            Some(i) => {
                proof {
                    self.lemma_lookup_at(i as int);
                }
                let t = self.entries[i].1;
                if t.stage.is_finished() {
                    proof {
                        assert(old(self)@.insert(id@, t) =~= old(self)@);
                    }
                    return;
                }
                let new_stage = match stage {
                    Some(s) => if s.rank() >= t.stage.rank() {
                        s
                    } else {
                        t.stage
                    },
                    None => t.stage,
                };
                let new_progress = if progress > t.progress {
                    progress
                } else {
                    t.progress
                };
                self.set_task(i, ArchiveTask { stage: new_stage, progress: new_progress, mod_id: t.mod_id });
            },
            None => {},
        }
    }

    /// Marks the task under `id` as failed, leaving its progress as it was; a
    /// finished task stays as it is.
    pub fn fail(&mut self, id: &str)
        requires
            old(self).wf(),
            old(self)@.contains_key(id@),
        ensures
            final(self).wf(),
            final(self)@ == old(self)@.insert(
                id@,
                advanced(old(self)@[id@], Some(ArchiveTaskStage::Failed), 0),
            ),
    {
        self.advance(id, Some(ArchiveTaskStage::Failed), 0);
    }

    /// Marks the task under `id` as completed, with full progress and the id
    /// of the stored resource; a finished task stays as it is.
    pub fn complete(&mut self, id: &str, mod_id: i32)
        requires
            old(self).wf(),
            old(self)@.contains_key(id@),
        ensures
            final(self).wf(),
            final(self)@ == old(self)@.insert(id@, completed(old(self)@[id@], mod_id)),
    {
        match self.find(id) {
            Some(i) => {
                proof {
                    self.lemma_lookup_at(i as int);
                }
                if self.entries[i].1.stage.is_finished() {
                    proof {
                        assert(old(self)@.insert(id@, old(self)@[id@]) =~= old(self)@);
                    }
                    return;
                }
                self.set_task(
                    i,
                    ArchiveTask {
                        stage: ArchiveTaskStage::Completed,
                        progress: FULL_PROGRESS,
                        mod_id: Some(mod_id),
                    },
                );
            },
            None => {},
        }
    }

    /// Deletes the task under `id`; nothing happens when there is none.
    pub fn remove(&mut self, id: &str)
        requires
            old(self).wf(),
        ensures
            final(self).wf(),
            final(self)@ == old(self)@.remove(id@),
    {
        match self.find(id) {
            Some(i) => {
                let ghost old_entries = self.entries@;
                let _ = self.entries.remove(i);
                proof {
                    assert forall|a: int, b: int|
                        0 <= a < self.entries@.len() && 0 <= b < self.entries@.len() && a != b
                            implies self.entries@[a].0@ != self.entries@[b].0@ by {
                        let oa = if a < i { a } else { a + 1 };
                        let ob = if b < i { b } else { b + 1 };
                        assert(self.entries@[a] == old_entries[oa]);
                        assert(self.entries@[b] == old_entries[ob]);
                    }
                    assert forall|k: Seq<char>| #[trigger] lookup(self.entries@, k) == (if k == id@ {
                        None
                    } else {
                        lookup(old_entries, k)
                    }) by {
                        if k == id@ {
                            assert forall|a: int| 0 <= a < self.entries@.len() implies (#[trigger] self.entries@[a]).0@ != k by {
                                let oa = if a < i { a } else { a + 1 };
                                assert(self.entries@[a] == old_entries[oa]);
                            }
                        } else if exists|a: int| 0 <= a < old_entries.len() && (#[trigger] old_entries[a]).0@ == k {
                            let a = choose|a: int| 0 <= a < old_entries.len() && (#[trigger] old_entries[a]).0@ == k;
                            let na = if a < i { a } else { a - 1 };
                            assert(self.entries@[na] == old_entries[a]);
                            self.lemma_lookup_at(na);
                            old(self).lemma_lookup_at(a);
                        } else {
                            assert forall|a: int| 0 <= a < self.entries@.len() implies (#[trigger] self.entries@[a]).0@ != k by {
                                let oa = if a < i { a } else { a + 1 };
                                assert(self.entries@[a] == old_entries[oa]);
                            }
                        }
                    }
                    assert(self@ =~= old(self)@.remove(id@));
                }
            },
            None => {
                assert(self@ =~= old(self)@.remove(id@));
            },
        }
    }

    /// Reads the task under `id` for a poller; a task in a terminal stage is
    /// removed, so the next poll finds nothing, while this one still sees it.
    pub fn poll(&mut self, id: &str) -> (r: Option<ArchiveTask>)
        requires
            old(self).wf(),
        ensures
            final(self).wf(),
            r == (if old(self)@.contains_key(id@) {
                Some(old(self)@[id@])
            } else {
                None
            }),
            final(self)@ == (if r is Some && r->Some_0.stage.is_finished_spec() {
                old(self)@.remove(id@)
            } else {
                old(self)@
            }),
    {
        let r = self.get(id);
        match r {
            Some(t) => {
                if t.stage.is_finished() {
                    self.remove(id);
                }
            },
            None => {},
        }
        r
    }
}

/// Updates the progress of a registered task, and its stage when one is given.
pub fn update_task_progress(
    tasks: &mut TaskRegistry,
    task_id: &str,
    stage: Option<ArchiveTaskStage>,
    progress: u32,
)
    requires
        old(tasks).wf(),
        old(tasks)@.contains_key(task_id@),
        progress <= FULL_PROGRESS,
    ensures
        final(tasks).wf(),
        final(tasks)@ == old(tasks)@.insert(task_id@, advanced(old(tasks)@[task_id@], stage, progress)),
{
    tasks.advance(task_id, stage, progress);
}

/// Deletes a task; nothing happens when there is none.
pub fn remove_task(tasks: &mut TaskRegistry, task_id: &str)
    requires
        old(tasks).wf(),
    ensures
        final(tasks).wf(),
        final(tasks)@ == old(tasks)@.remove(task_id@),
{
    tasks.remove(task_id);
}

/// What the worker running a task reports as it goes.
#[derive(Clone, Copy, Debug, PartialEq, Eq, Structural)]
pub enum PipelineEvent {
    /// The download plan is ready; downloading starts.
    Planned,
    /// Transfers completed; the downloaded fraction in ten-thousandths.
    Downloaded(u32),
    /// All files are downloaded; extraction starts.
    DownloadsDone,
    /// `index` of `total` keys are merged.
    Merged(usize, usize),
    /// Extraction is done; saving starts.
    Extracted,
    /// The resource is stored under this id.
    Saved(i32),
    /// Some stage failed.
    Failed,
}

/// The stage and progress that an event asks for (for `Saved` and `Failed`
/// see `apply_event`).
pub open spec fn event_update(e: PipelineEvent) -> (Option<ArchiveTaskStage>, int) {
    match e {
        PipelineEvent::Planned => (Some(ArchiveTaskStage::Downloading), DOWNLOADING_PROGRESS as int),
        PipelineEvent::Downloaded(f) => (None, downloading_progress_spec(f as int)),
        PipelineEvent::DownloadsDone => (Some(ArchiveTaskStage::Extracting), EXTRACTING_PROGRESS as int),
        PipelineEvent::Merged(i, n) => (None, extracting_progress_spec(i as int, n as int)),
        PipelineEvent::Extracted => (Some(ArchiveTaskStage::Saving), SAVING_PROGRESS as int),
        PipelineEvent::Saved(_) => (Some(ArchiveTaskStage::Completed), FULL_PROGRESS as int),
        PipelineEvent::Failed => (Some(ArchiveTaskStage::Failed), 0),
    }
}

/// The event carries values in range.
pub open spec fn event_ok(e: PipelineEvent) -> bool {
    match e {
        PipelineEvent::Downloaded(f) => f <= 10000,
        PipelineEvent::Merged(i, n) => i <= n,
        _ => true,
    }
}

/// The task after an event.
pub open spec fn after_event(t: ArchiveTask, event: PipelineEvent) -> ArchiveTask {
    match event {
        PipelineEvent::Saved(m) => completed(t, m),
        _ => advanced(t, event_update(event).0, event_update(event).1 as u32),
    }
}

/// Records an event of the worker running task `id`: the stage moves as the
/// event says unless that stage comes earlier, progress only rises, a saved
/// task completes at full progress with the stored id, and a failed task keeps
/// its progress. A finished task is left as it is.
pub fn apply_event(tasks: &mut TaskRegistry, id: &str, event: PipelineEvent)
    requires
        old(tasks).wf(),
        old(tasks)@.contains_key(id@),
        event_ok(event),
    ensures
        final(tasks).wf(),
        final(tasks)@ == old(tasks)@.insert(id@, after_event(old(tasks)@[id@], event)),
{
    match event {
        PipelineEvent::Planned => tasks.advance(id, Some(ArchiveTaskStage::Downloading), DOWNLOADING_PROGRESS),
        PipelineEvent::Downloaded(f) => tasks.advance(id, None, downloading_progress(f)),
        PipelineEvent::DownloadsDone => tasks.advance(id, Some(ArchiveTaskStage::Extracting), EXTRACTING_PROGRESS),
        PipelineEvent::Merged(i, n) => tasks.advance(id, None, extracting_progress(i, n)),
        PipelineEvent::Extracted => tasks.advance(id, Some(ArchiveTaskStage::Saving), SAVING_PROGRESS),
        PipelineEvent::Saved(m) => tasks.complete(id, m),
        PipelineEvent::Failed => tasks.fail(id),
    }
}

/// Whatever the worker reports, a task's stage never moves back and a
/// finished task never changes; its progress never goes down and stays at most
/// full; a running task that is saved ends completed at full progress.
pub proof fn lemma_event_monotone(t: ArchiveTask, event: PipelineEvent)
    requires
        event_ok(event),
        t.progress <= FULL_PROGRESS,
    ensures
        after_event(t, event).stage.rank_spec() >= t.stage.rank_spec(),
        t.stage.is_finished_spec() ==> after_event(t, event) == t,
        after_event(t, event).progress >= t.progress,
        after_event(t, event).progress <= FULL_PROGRESS,
        event is Saved && !t.stage.is_finished_spec() ==> {
            &&& after_event(t, event).stage == ArchiveTaskStage::Completed
            &&& after_event(t, event).progress == FULL_PROGRESS
        },
{
    match event {
        PipelineEvent::Downloaded(f) => {
            assert(downloading_progress_spec(f as int) <= EXTRACTING_PROGRESS);
        },
        PipelineEvent::Merged(i, n) => {
            if n > 0 {
                assert(i as int * 1000 / n as int <= 1000) by (nonlinear_arith)
                    requires
                        i <= n,
                        n > 0,
                ;
            }
        },
        _ => {},
    }
}

/// Updating a registered task never moves its stage back, never changes a
/// finished task, and never lowers its progress.
pub proof fn lemma_update_monotone(t: ArchiveTask, stage: Option<ArchiveTaskStage>, progress: u32)
    ensures
        advanced(t, stage, progress).stage.rank_spec() >= t.stage.rank_spec(),
        t.stage.is_finished_spec() ==> advanced(t, stage, progress) == t,
        advanced(t, stage, progress).progress >= t.progress,
{
}

/// The task after a run of events, in order.
pub open spec fn after_events(t: ArchiveTask, events: Seq<PipelineEvent>) -> ArchiveTask
    decreases events.len(),
{
    if events.len() == 0 {
        t
    } else {
        after_event(after_events(t, events.drop_last()), events.last())
    }
}

/// Along any run of events, progress stays at most full.
proof fn lemma_run_bounded(t: ArchiveTask, events: Seq<PipelineEvent>)
    requires
        t.progress <= FULL_PROGRESS,
        forall|k: int| 0 <= k < events.len() ==> event_ok(#[trigger] events[k]),
    ensures
        after_events(t, events).progress <= FULL_PROGRESS,
    decreases events.len(),
{
    if events.len() > 0 {
        lemma_run_bounded(t, events.drop_last());
        lemma_event_monotone(after_events(t, events.drop_last()), events.last());
    }
}

/// Along any run of events, the stage of a task never moves back and its
/// progress never goes down: what a poller sees later is never behind what
/// it saw earlier.
pub proof fn lemma_run_monotone(t: ArchiveTask, events: Seq<PipelineEvent>, i: int, j: int)
    requires
        t.progress <= FULL_PROGRESS,
        forall|k: int| 0 <= k < events.len() ==> event_ok(#[trigger] events[k]),
        0 <= i <= j <= events.len(),
    ensures
        after_events(t, events.take(i)).stage.rank_spec() <= after_events(t, events.take(j)).stage.rank_spec(),
        after_events(t, events.take(i)).progress <= after_events(t, events.take(j)).progress,
        after_events(t, events.take(j)).progress <= FULL_PROGRESS,
    decreases j,
{
    let pre = events.take(j - 1);
    if j > 0 {
        assert(events.take(j).drop_last() =~= pre);
        assert(events.take(j).last() == events[j - 1]);
        assert forall|k: int| 0 <= k < pre.len() implies event_ok(#[trigger] pre[k]) by {
            assert(pre[k] == events[k]);
        }
        lemma_run_bounded(t, pre);
        lemma_event_monotone(after_events(t, pre), events[j - 1]);
    }
    if j > i {
        lemma_run_monotone(t, events, i, j - 1);
    } else if j == 0 {
        assert(events.take(0) =~= Seq::<PipelineEvent>::empty());
    }
}

/// A run in which nothing fails or is saved leaves a running task running;
/// saving it then completes it at full progress with the stored id.
pub proof fn lemma_run_completes(t: ArchiveTask, events: Seq<PipelineEvent>, mod_id: i32)
    requires
        !t.stage.is_finished_spec(),
        forall|k: int|
            0 <= k < events.len() ==> !(#[trigger] events[k] is Saved) && events[k] != PipelineEvent::Failed,
    ensures
        !after_events(t, events).stage.is_finished_spec(),
        after_events(t, events.push(PipelineEvent::Saved(mod_id))) == (ArchiveTask {
            stage: ArchiveTaskStage::Completed,
            progress: FULL_PROGRESS,
            mod_id: Some(mod_id),
        }),
    decreases events.len(),
{
    if events.len() > 0 {
        let pre = events.drop_last();
        assert forall|k: int| 0 <= k < pre.len() implies !(#[trigger] pre[k] is Saved) && pre[k]
            != PipelineEvent::Failed by {
            assert(pre[k] == events[k]);
        }
        lemma_run_completes(t, pre, mod_id);
        assert(events[events.len() - 1] == events.last());
    }
    assert(events.push(PipelineEvent::Saved(mod_id)).drop_last() =~= events);
}

/// Submitting the task of the same resource twice, with no removal between,
/// gives the same task id both times, and the second submission finds the
/// first task in place and creates nothing.
pub proof fn lemma_submit_idempotent(
    tasks: Map<Seq<char>, ArchiveTask>,
    provider: ArchiveProvider,
    identifier: Seq<char>,
    first: ArchiveTask,
    second: ArchiveTask,
)
    ensures
        ({
            let id = task_id_spec(provider, identifier);
            let once = submitted(tasks, id, first);
            &&& once.contains_key(id)
            &&& submitted(once, id, second) == once
            &&& (!tasks.contains_key(id) ==> once[id] == first)
        }),
{
}

} // verus!
