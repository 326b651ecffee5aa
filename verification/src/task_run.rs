//! One task of a run, step by step.
//!
//! A [`TaskRun`] names the next thing to do as a [`TaskCall`]. The application
//! does it and hands what came of it back as a [`TaskReply`], until the task is
//! finished.

use vstd::prelude::*;
use crate::cache::{
    bound_for, can_keep, kept_at, law_restore_gives_stored_outputs_back,
    law_restore_puts_objects_in_place, object_of, objects_of, places_in, restoring_all,
    same_content, storing_all, targets_in, Content, LocalArtifactStore,
};
use crate::event::TaskStatus;
use crate::executor::{cleaned, normalize_outputs, RunOptions, TaskOutcome};
use crate::explain::{explain_cache_miss, miss_reasons};
use crate::files::{agrees, all_applied};
use crate::model::TaskSpec;
use crate::paths::{joined_path, normalized, PathError};
use crate::record::{same_record, text_values};
use crate::store::{CachedArtifact, ExecutionRecord};
use crate::text::{lists, texts};
use crate::text_map::TextMap;

verus! {

/// The next thing to do for a task.
#[derive(Debug, Clone, Copy, PartialEq, Eq, Structural)]
pub enum TaskCall {
    /// Find the inputs and compute the fingerprint.
    Fingerprint,
    /// Look for an execution with this fingerprint.
    FetchExecution,
    /// Put the outputs of that execution back.
    Restore,
    /// Look for the newest execution.
    FetchLatest,
    /// Copy the workspace to a stage and run the command there.
    Stage,
    /// Move the outputs from the stage to the workspace.
    Promote,
    /// Take the outputs into the store.
    StoreArtifacts,
    /// Record the execution.
    SaveExecution,
    /// Nothing more.
    Finished,
}

/// What a command left behind.
#[derive(Debug, Clone)]
pub struct CommandOutput {
    pub success: bool,
    /// The exit status in words.
    pub status: String,
    pub stdout: String,
    pub stderr: String,
}

/// What came of a call.
#[derive(Debug, Clone)]
pub enum TaskReply {
    Fingerprinted { fingerprint: String, manifest: TextMap<String> },
    Fetched(Option<ExecutionRecord>),
    Restored,
    /// The manifest of the newest execution.
    Latest(Option<TextMap<String>>),
    Ran(CommandOutput),
    Promoted,
    Stored { artifacts: Vec<CachedArtifact>, created_at: i64, duration_ms: u64 },
    Saved,
    /// The call could not be carried out.
    Failed(String),
    /// The stage could not be made.
    NotStaged(String),
}

/// How far a task has come.
#[derive(Debug, Clone)]
pub enum TaskEnd {
    Open,
    Done { from_cache: bool, dry_run: bool },
    Failed(String),
}

/// One task of a run.
#[derive(Debug, Clone)]
pub struct TaskRun {
    pub task_name: String,
    pub force: bool,
    pub no_cache: bool,
    pub explain: bool,
    pub dry_run: bool,
    /// The cleaned paths of the outputs.
    pub outputs: Vec<String>,
    pub fingerprint: String,
    pub manifest: TextMap<String>,
    /// The outputs to put back.
    pub artifacts: Vec<CachedArtifact>,
    pub stdout: String,
    pub stderr: String,
    /// Why the task was not cached.
    pub reasons: Vec<String>,
    /// The execution to record.
    pub record: Option<ExecutionRecord>,
    pub call: TaskCall,
    /// What is told of the end of the task, if anything.
    pub told: Option<TaskStatus>,
    pub end: TaskEnd,
}

/// Whether the reply is one to the call.
pub open spec fn answers(call: TaskCall, reply: TaskReply) -> bool {
    match reply {
        TaskReply::Fingerprinted { manifest, .. } => call == TaskCall::Fingerprint && manifest.wf(),
        TaskReply::Fetched(_) => call == TaskCall::FetchExecution,
        TaskReply::Restored => call == TaskCall::Restore,
        TaskReply::Latest(manifest) => call == TaskCall::FetchLatest && (manifest matches Some(m)
            ==> m.wf()),
        TaskReply::Ran(_) => call == TaskCall::Stage,
        TaskReply::Promoted => call == TaskCall::Promote,
        TaskReply::Stored { .. } => call == TaskCall::StoreArtifacts,
        TaskReply::Saved => call == TaskCall::SaveExecution,
        TaskReply::Failed(_) => call != TaskCall::Finished,
        TaskReply::NotStaged(_) => call == TaskCall::Stage,
    }
}

/// What is said when the call cannot be carried out.
pub open spec fn failure_text(call: TaskCall, task: Seq<char>, cause: Seq<char>) -> Seq<char> {
    match call {
        TaskCall::Restore => "restoring cache hit for task '"@ + task + "': "@ + cause,
        TaskCall::Stage => "executing task '"@ + task + "': "@ + cause,
        TaskCall::Promote => "promoting outputs for task '"@ + task + "': "@ + cause,
        _ => cause,
    }
}

/// What is said of a command that failed.
pub open spec fn exit_text(task: Seq<char>, output: CommandOutput) -> Seq<char> {
    "task '"@ + task + "' failed with status "@ + output.status@ + "\nstdout:\n"@ + output.stdout@
        + "\nstderr:\n"@ + output.stderr@
}

impl TaskRun {
    /// The task and what is asked for stay as they are.
    pub open spec fn keeps(self, old_run: TaskRun) -> bool {
        &&& self.task_name@ == old_run.task_name@
        &&& self.force == old_run.force
        &&& self.no_cache == old_run.no_cache
        &&& self.explain == old_run.explain
        &&& self.dry_run == old_run.dry_run
        &&& self.outputs@ == old_run.outputs@
    }

    /// What went into the fingerprint stays as it is.
    pub open spec fn keeps_print(self, old_run: TaskRun) -> bool {
        &&& self.fingerprint@ == old_run.fingerprint@
        &&& self.manifest == old_run.manifest
    }

    /// The task goes on with the call.
    pub open spec fn goes_on(self, call: TaskCall) -> bool {
        self.call == call && self.told is None && self.end is Open
    }

    /// The task has failed, and this is said of it.
    pub open spec fn has_failed(self, text: Seq<char>, told: Option<TaskStatus>) -> bool {
        &&& self.call == TaskCall::Finished
        &&& self.told == told
        &&& self.end matches TaskEnd::Failed(e) && e@ == text
    }

    /// The task is done.
    pub open spec fn is_done(self, from_cache: bool, dry_run: bool, told: TaskStatus) -> bool {
        &&& self.call == TaskCall::Finished
        &&& self.told == Some(told)
        &&& self.end == (TaskEnd::Done { from_cache, dry_run })
    }

    /// The task is not cached: it ends here in a dry run, and its command is run
    /// otherwise.
    pub open spec fn is_missed(self) -> bool {
        if self.dry_run {
            self.is_done(false, true, TaskStatus::DryRun)
        } else {
            self.goes_on(TaskCall::Stage)
        }
    }

    /// Whether `new_run` is what the reply makes of the run.
    pub open spec fn becomes(self, reply: TaskReply, new_run: TaskRun) -> bool {
        &&& new_run.keeps(self)
        &&& match reply {
            TaskReply::Fingerprinted { fingerprint, manifest } => {
                &&& new_run.fingerprint@ == fingerprint@
                &&& new_run.manifest == manifest
                &&& if !self.force && !self.no_cache {
                    new_run.goes_on(TaskCall::FetchExecution) && new_run.reasons@ == self.reasons@
                } else {
                    &&& if self.explain {
                        miss_reasons(
                            self.force,
                            self.no_cache,
                            None,
                            text_values(manifest@),
                            texts(new_run.reasons@),
                        )
                    } else {
                        new_run.reasons@ == self.reasons@
                    }
                    &&& new_run.is_missed()
                }
            },
            TaskReply::Fetched(Some(record)) => {
                &&& new_run.keeps_print(self)
                &&& new_run.reasons@ == self.reasons@
                &&& if self.dry_run {
                    new_run.is_done(true, true, TaskStatus::DryRun)
                } else {
                    new_run.goes_on(TaskCall::Restore) && new_run.artifacts@ == record.artifacts@
                }
            },
            TaskReply::Fetched(None) => {
                &&& new_run.keeps_print(self)
                &&& new_run.reasons@ == self.reasons@
                &&& if self.explain {
                    new_run.goes_on(TaskCall::FetchLatest)
                } else {
                    new_run.is_missed()
                }
            },
            TaskReply::Restored => {
                &&& new_run.keeps_print(self)
                &&& new_run.reasons@ == self.reasons@
                &&& new_run.is_done(true, false, TaskStatus::CacheHit)
            },
            TaskReply::Latest(previous) => {
                &&& new_run.keeps_print(self)
                &&& miss_reasons(
                    self.force,
                    self.no_cache,
                    match previous {
                        Some(m) => Some(text_values(m@)),
                        None => None,
                    },
                    text_values(self.manifest@),
                    texts(new_run.reasons@),
                )
                &&& new_run.is_missed()
            },
            TaskReply::Ran(output) => {
                &&& new_run.keeps_print(self)
                &&& new_run.reasons@ == self.reasons@
                &&& if output.success {
                    &&& new_run.goes_on(TaskCall::Promote)
                    &&& new_run.stdout@ == output.stdout@
                    &&& new_run.stderr@ == output.stderr@
                } else {
                    new_run.has_failed(exit_text(self.task_name@, output), Some(TaskStatus::Failed))
                }
            },
            TaskReply::Promoted => {
                &&& new_run.keeps_print(self)
                &&& new_run.reasons@ == self.reasons@
                &&& new_run.stdout@ == self.stdout@
                &&& new_run.stderr@ == self.stderr@
                &&& if self.no_cache {
                    new_run.is_done(false, false, TaskStatus::Executed)
                } else {
                    new_run.goes_on(TaskCall::StoreArtifacts)
                }
            },
            TaskReply::Stored { artifacts, created_at, duration_ms } => {
                &&& new_run.keeps_print(self)
                &&& new_run.reasons@ == self.reasons@
                &&& new_run.goes_on(TaskCall::SaveExecution)
                &&& new_run.record matches Some(record) && {
                    &&& record.task_name@ == self.task_name@
                    &&& record.fingerprint@ == self.fingerprint@
                    &&& record.manifest.wf()
                    &&& record.manifest@ == self.manifest@
                    &&& record.artifacts@ == artifacts@
                    &&& record.stdout@ == self.stdout@
                    &&& record.stderr@ == self.stderr@
                    &&& record.created_at == created_at
                    &&& record.duration_ms == duration_ms
                }
            },
            TaskReply::Saved => {
                &&& new_run.reasons@ == self.reasons@
                &&& new_run.is_done(false, false, TaskStatus::Executed)
            },
            TaskReply::Failed(cause) => new_run.has_failed(
                failure_text(self.call, self.task_name@, cause@),
                None,
            ),
            TaskReply::NotStaged(cause) => new_run.has_failed(cause@, None),
        }
    }

    /// The beginning of a task. `spec` is what is declared of it.
    pub fn start(task_name: &str, spec: Option<&TaskSpec>, options: &RunOptions) -> (r: TaskRun)
        ensures
            r.task_name@ == task_name@,
            r.force == (options.force || texts(options.force_tasks@).contains(task_name@)),
            r.no_cache == options.no_cache,
            r.explain == options.explain,
            r.dry_run == options.dry_run,
            r.manifest.wf(),
            r.reasons@.len() == 0,
            match spec {
                None => r.has_failed("task '"@ + task_name@ + "' not found"@, None),
                Some(task) => {
                    let outputs = texts(task.outputs@);
                    if cleaned(outputs).len() == outputs.len() {
                        r.goes_on(TaskCall::Fingerprint) && texts(r.outputs@) == cleaned(outputs)
                    } else {
                        let bad = outputs[cleaned(outputs).len() as int];
                        normalized(bad) matches Err(cause) && r.has_failed(cause.text(bad), None)
                    }
                },
            },
    {
        let mut run = TaskRun {
            task_name: task_name.to_owned(),
            force: options.force || lists(&options.force_tasks, task_name),
            no_cache: options.no_cache,
            explain: options.explain,
            dry_run: options.dry_run,
            outputs: Vec::new(),
            fingerprint: String::new(),
            manifest: TextMap::new(),
            artifacts: Vec::new(),
            stdout: String::new(),
            stderr: String::new(),
            reasons: Vec::new(),
            record: None,
            call: TaskCall::Fingerprint,
            told: None,
            end: TaskEnd::Open,
        };
        match spec {
            None => {
                let mut text = "task '".to_owned();
                text.append(task_name);
                text.append("' not found");
                run.call = TaskCall::Finished;
                run.end = TaskEnd::Failed(text);
            },
            Some(task) => {
                match normalize_outputs(task) {
                    Ok(outputs) => {
                        run.outputs = outputs;
                    },
                    Err(e) => {
                        let text = e.cause.message(e.output.as_str());
                        run.call = TaskCall::Finished;
                        run.end = TaskEnd::Failed(text);
                    },
                }
            },
        }
        run
    }

    /// Ends the task with a failure.
    fn fail(&mut self, text: String, told: Option<TaskStatus>)
        ensures
            final(self).has_failed(text@, told),
            final(self).keeps(*old(self)),
            final(self).keeps_print(*old(self)),
            final(self).reasons@ == old(self).reasons@,
    {
        self.call = TaskCall::Finished;
        self.told = told;
        self.end = TaskEnd::Failed(text);
    }

    /// Ends the task.
    fn finish(&mut self, from_cache: bool, dry_run: bool, told: TaskStatus)
        ensures
            final(self).is_done(from_cache, dry_run, told),
            final(self).keeps(*old(self)),
            final(self).keeps_print(*old(self)),
            final(self).reasons@ == old(self).reasons@,
            final(self).stdout@ == old(self).stdout@,
            final(self).stderr@ == old(self).stderr@,
    {
        self.call = TaskCall::Finished;
        self.told = Some(told);
        self.end = TaskEnd::Done { from_cache, dry_run };
    }

    /// Goes on with a task that is not cached.
    fn miss(&mut self)
        requires
            old(self).told is None,
            old(self).end is Open,
        ensures
            final(self).is_missed(),
            final(self).keeps(*old(self)),
            final(self).keeps_print(*old(self)),
            final(self).reasons@ == old(self).reasons@,
    {
        if self.dry_run {
            self.finish(false, true, TaskStatus::DryRun);
        } else {
            self.call = TaskCall::Stage;
        }
    }

    /// Takes a reply in and decides what is to be done next.
    pub fn next(&mut self, reply: TaskReply)
        requires
            old(self).manifest.wf(),
            old(self).told is None,
            old(self).end is Open,
            answers(old(self).call, reply),
        ensures
            old(self).becomes(reply, *final(self)),
            final(self).manifest.wf(),
            final(self).call != TaskCall::Finished ==> final(self).told is None && final(self).end is Open,
    {
        match reply {
            TaskReply::Fingerprinted { fingerprint, manifest } => {
                self.fingerprint = fingerprint;
                self.manifest = manifest;
                if !self.force && !self.no_cache {
                    self.call = TaskCall::FetchExecution;
                } else {
                    if self.explain {
                        self.reasons = explain_cache_miss(
                            self.force,
                            self.no_cache,
                            None,
                            &self.manifest,
                        );
                    }
                    self.miss();
                }
            },
            TaskReply::Fetched(Some(record)) => {
                if self.dry_run {
                    self.finish(true, true, TaskStatus::DryRun);
                } else {
                    self.artifacts = record.artifacts;
                    self.call = TaskCall::Restore;
                }
            },
            TaskReply::Fetched(None) => {
                if self.explain {
                    self.call = TaskCall::FetchLatest;
                } else {
                    self.miss();
                }
            },
            TaskReply::Restored => {
                self.finish(true, false, TaskStatus::CacheHit);
            },
            TaskReply::Latest(previous) => {
                self.reasons = match &previous {
                    Some(m) => explain_cache_miss(
                        self.force,
                        self.no_cache,
                        Some(m),
                        &self.manifest,
                    ),
                    None => explain_cache_miss(self.force, self.no_cache, None, &self.manifest),
                };
                self.miss();
            },
            TaskReply::Ran(output) => {
                if output.success {
                    self.stdout = output.stdout;
                    self.stderr = output.stderr;
                    self.call = TaskCall::Promote;
                } else {
                    let mut text = "task '".to_owned();
                    text.append(self.task_name.as_str());
                    text.append("' failed with status ");
                    text.append(output.status.as_str());
                    text.append("\nstdout:\n");
                    text.append(output.stdout.as_str());
                    text.append("\nstderr:\n");
                    text.append(output.stderr.as_str());
                    self.fail(text, Some(TaskStatus::Failed));
                }
            },
            TaskReply::Promoted => {
                if self.no_cache {
                    self.finish(false, false, TaskStatus::Executed);
                } else {
                    self.call = TaskCall::StoreArtifacts;
                }
            },
            TaskReply::Stored { artifacts, created_at, duration_ms } => {
                let manifest = self.manifest.copy_texts();
                self.record = Some(
                    ExecutionRecord {
                        task_name: self.task_name.clone(),
                        fingerprint: self.fingerprint.clone(),
                        manifest,
                        artifacts,
                        stdout: self.stdout.clone(),
                        stderr: self.stderr.clone(),
                        created_at,
                        duration_ms,
                    },
                );
                self.call = TaskCall::SaveExecution;
            },
            TaskReply::Saved => {
                self.finish(false, false, TaskStatus::Executed);
            },
            TaskReply::Failed(cause) => {
                let text = match self.call {
                    TaskCall::Restore => with_task(
                        "restoring cache hit for task '",
                        self.task_name.as_str(),
                        cause.as_str(),
                    ),
                    TaskCall::Stage => with_task(
                        "executing task '",
                        self.task_name.as_str(),
                        cause.as_str(),
                    ),
                    TaskCall::Promote => with_task(
                        "promoting outputs for task '",
                        self.task_name.as_str(),
                        cause.as_str(),
                    ),
                    _ => cause,
                };
                self.fail(text, None);
            },
            TaskReply::NotStaged(cause) => {
                self.fail(cause, None);
            },
        }
    }

    /// What became of a task that is finished.
    pub fn outcome(self) -> (r: Result<TaskOutcome, String>)
        requires
            !(self.end is Open),
        ensures
            match (r, self.end) {
                (Ok(outcome), TaskEnd::Done { from_cache, dry_run }) => {
                    &&& outcome.task_name@ == self.task_name@
                    &&& outcome.from_cache == from_cache
                    &&& outcome.dry_run == dry_run
                    &&& outcome.cache_miss_reasons@ == self.reasons@
                },
                (Err(e), TaskEnd::Failed(text)) => e@ == text@,
                _ => false,
            },
    {
        match self.end {
            TaskEnd::Done { from_cache, dry_run } => Ok(
                TaskOutcome {
                    task_name: self.task_name,
                    from_cache,
                    dry_run,
                    cache_miss_reasons: self.reasons,
                },
            ),
            TaskEnd::Failed(text) => Err(text),
            TaskEnd::Open => Err(String::new()),
        }
    }
}

/// `head`, the task's name, `': ` and the cause.
fn with_task(head: &str, task: &str, cause: &str) -> (r: String)
    ensures
        r@ == head@ + task@ + "': "@ + cause@,
{
    let mut r = head.to_owned();
    r.append(task);
    r.append("': ");
    r.append(cause);
    r
}

/// How late in a task the call comes.
pub open spec fn rank(call: TaskCall) -> int {
    match call {
        TaskCall::Fingerprint => 0,
        TaskCall::FetchExecution => 1,
        TaskCall::Restore => 2,
        TaskCall::FetchLatest => 2,
        TaskCall::Stage => 3,
        TaskCall::Promote => 4,
        TaskCall::StoreArtifacts => 5,
        TaskCall::SaveExecution => 6,
        TaskCall::Finished => 7,
    }
}

/// Whether the call leaves alone what this run is to leave alone: a dry run the
/// workspace and the record of executions, a run without cache the store, and a
/// forced one what the store has.
pub open spec fn is_allowed(run: TaskRun) -> bool {
    let call = run.call;
    &&& run.dry_run ==> call != TaskCall::Restore && call != TaskCall::Stage && call
        != TaskCall::Promote && call != TaskCall::StoreArtifacts && call != TaskCall::SaveExecution
    &&& run.no_cache ==> call != TaskCall::FetchExecution && call != TaskCall::Restore && call
        != TaskCall::FetchLatest && call != TaskCall::StoreArtifacts && call
        != TaskCall::SaveExecution
    &&& run.force ==> call != TaskCall::FetchExecution && call != TaskCall::Restore && call
        != TaskCall::FetchLatest
}

/// Whatever comes back, a task only ever asks for what its run allows.
pub proof fn law_calls_stay_allowed(run: TaskRun, reply: TaskReply, next: TaskRun)
    requires
        is_allowed(run),
        answers(run.call, reply),
        run.becomes(reply, next),
    ensures
        is_allowed(next),
{
}

/// Whatever comes back, a task moves on, so it is finished after at most seven
/// replies.
pub proof fn law_task_moves_on(run: TaskRun, reply: TaskReply, next: TaskRun)
    requires
        answers(run.call, reply),
        run.becomes(reply, next),
    ensures
        rank(run.call) < rank(next.call) <= 7,
{
}

/// Outputs are promoted only after the command has succeeded; a command that
/// failed ends the task.
pub proof fn law_only_success_is_promoted(run: TaskRun, reply: TaskReply, next: TaskRun)
    requires
        answers(run.call, reply),
        run.becomes(reply, next),
    ensures
        next.call == TaskCall::Promote ==> (reply matches TaskReply::Ran(output) && output.success),
        (reply matches TaskReply::Ran(output) && !output.success) ==> next.end is Failed,
{
}

/// An execution is recorded only after its outputs were promoted and stored.
pub proof fn law_record_comes_last(run: TaskRun, reply: TaskReply, next: TaskRun)
    requires
        answers(run.call, reply),
        run.becomes(reply, next),
    ensures
        next.call == TaskCall::StoreArtifacts ==> reply is Promoted,
        next.call == TaskCall::SaveExecution ==> reply is Stored,
{
}

/// A cache hit never runs the command.
pub proof fn law_hit_runs_nothing(run: TaskRun, record: ExecutionRecord, next: TaskRun)
    requires
        run.becomes(TaskReply::Fetched(Some(record)), next),
    ensures
        next.call == TaskCall::Restore || next.call == TaskCall::Finished,
{
}

/// On a cache hit the outputs of the record are put back. Carried out on a disk that
/// holds the record's objects, the next call leaves each recorded output at its place
/// below the workspace with what its object holds, and every other path as it was.
/// The outputs go to different places, none of which is an object.
pub proof fn law_hit_puts_recorded_outputs_back<T>(
    run: TaskRun,
    record: ExecutionRecord,
    next: TaskRun,
    store: LocalArtifactStore,
    workspace: Seq<char>,
    disk: Map<Seq<char>, T>,
)
    requires
        run.becomes(TaskReply::Fetched(Some(record)), next),
        !run.dry_run,
        bound_for(workspace, record.artifacts@).no_duplicates(),
        forall|i: int|
            0 <= i < record.artifacts@.len() ==> {
                let object = store.object_path((#[trigger] record.artifacts@[i]).object_hash@);
                disk.contains_key(object) && !bound_for(workspace, record.artifacts@).contains(object)
            },
    ensures
        next.call == TaskCall::Restore,
        ({
            let after = all_applied(
                disk,
                restoring_all(
                    kept_at(store, next.artifacts@),
                    bound_for(workspace, next.artifacts@),
                ),
            );
            &&& forall|i: int|
                0 <= i < record.artifacts@.len() ==> {
                    let artifact = #[trigger] record.artifacts@[i];
                    let place = joined_path(workspace, normalized(artifact.relative_path@)->Ok_0);
                    &&& after.contains_key(place)
                    &&& after[place] == disk[store.object_path(artifact.object_hash@)]
                }
            &&& forall|path: Seq<char>|
                !bound_for(workspace, record.artifacts@).contains(path) ==> #[trigger] agrees(
                    after,
                    disk,
                    path,
                )
        }),
{
    let sources = kept_at(store, record.artifacts@);
    let places = bound_for(workspace, record.artifacts@);
    assert forall|i: int| 0 <= i < sources.len() implies disk.contains_key(#[trigger] sources[i])
        && !places.contains(sources[i]) by {
        let artifact = record.artifacts@[i];
    }
    law_restore_puts_objects_in_place(disk, sources, places);
    let after = all_applied(disk, restoring_all(sources, places));
    assert forall|i: int| 0 <= i < record.artifacts@.len() implies {
        let artifact = #[trigger] record.artifacts@[i];
        let place = joined_path(workspace, normalized(artifact.relative_path@)->Ok_0);
        &&& after.contains_key(place)
        &&& after[place] == disk[store.object_path(artifact.object_hash@)]
    } by {
        assert(places[i] == joined_path(
            workspace,
            normalized(record.artifacts@[i].relative_path@)->Ok_0,
        ));
        assert(after.contains_key(places[i]));
    }
}

/// Whether the runs are what the replies make of the first of them, one reply after
/// the other. The first has just begun.
pub open spec fn is_task_history(runs: Seq<TaskRun>, replies: Seq<TaskReply>) -> bool {
    &&& runs.len() == replies.len() + 1
    &&& runs[0].call == TaskCall::Fingerprint
    &&& runs[0].told is None
    &&& runs[0].end is Open
    &&& runs[0].reasons@.len() == 0
    &&& forall|k: int|
        0 <= k < replies.len() ==> #[trigger] answers(runs[k].call, replies[k]) && runs[k].becomes(
            replies[k],
            runs[k + 1],
        )
}

/// Whether the reply says that something went wrong.
pub open spec fn is_bad(reply: TaskReply) -> bool {
    match reply {
        TaskReply::Failed(_) => true,
        TaskReply::NotStaged(_) => true,
        TaskReply::Ran(output) => !output.success,
        _ => false,
    }
}

/// Whether the store had the task.
pub open spec fn is_hit(reply: TaskReply) -> bool {
    reply matches TaskReply::Fetched(Some(_))
}

/// What is known of a task at any point of its history.
proof fn lemma_task_history(runs: Seq<TaskRun>, replies: Seq<TaskReply>, k: int)
    requires
        is_task_history(runs, replies),
        0 <= k < runs.len(),
    ensures
        runs[k].keeps(runs[0]),
        k > 0 ==> runs[k].call != TaskCall::Fingerprint,
        runs[k].call == TaskCall::Fingerprint || runs[k].call == TaskCall::Finished || (replies[0]
            matches TaskReply::Fingerprinted { fingerprint, manifest } && runs[k].fingerprint@
            == fingerprint@ && runs[k].manifest == manifest),
        runs[k].call != TaskCall::Finished ==> runs[k].told is None && runs[k].end is Open && forall|
            j: int,
        |
            0 <= j < k ==> !is_bad(#[trigger] replies[j]),
        match runs[k].call {
            TaskCall::Fingerprint => true,
            TaskCall::FetchExecution => k == 1 && !runs[0].force && !runs[0].no_cache,
            TaskCall::Restore => k == 2 && is_hit(replies[1]) && !runs[0].dry_run,
            TaskCall::FetchLatest => k == 2 && !is_hit(replies[1]) && runs[0].explain,
            TaskCall::Stage => !runs[0].dry_run && 1 <= k <= 3,
            TaskCall::Promote => k >= 2 && !runs[0].dry_run && (replies[k - 1] matches TaskReply::Ran(o)
                && o.success && runs[k].stdout@ == o.stdout@ && runs[k].stderr@ == o.stderr@),
            TaskCall::StoreArtifacts => k >= 3 && !runs[0].dry_run && !runs[0].no_cache && replies[k
                - 1] is Promoted && (replies[k - 2] matches TaskReply::Ran(o) && o.success
                && runs[k].stdout@ == o.stdout@ && runs[k].stderr@ == o.stderr@),
            TaskCall::SaveExecution => k >= 4 && !runs[0].dry_run && !runs[0].no_cache,
            TaskCall::Finished => true,
        },
        runs[k].call != TaskCall::Restore && runs[k].call != TaskCall::Finished ==> forall|j: int|
            0 <= j < k ==> !is_hit(#[trigger] replies[j]),
    decreases k,
{
    if k > 0 {
        lemma_task_history(runs, replies, k - 1);
        assert(answers(runs[k - 1].call, replies[k - 1]));
        if k > 1 {
            assert(answers(runs[k - 2].call, replies[k - 2]));
        }
    }
}

/// What is recorded of an execution is what the replies told of it: the fingerprint
/// and the manifest that were computed, what the command wrote, and the outputs that
/// were stored. The command had succeeded, and its outputs had been promoted.
pub proof fn law_record_tells_the_execution(runs: Seq<TaskRun>, replies: Seq<TaskReply>, k: int)
    requires
        is_task_history(runs, replies),
        0 <= k < runs.len(),
        runs[k].call == TaskCall::SaveExecution,
    ensures
        k >= 4,
        runs[k].record matches Some(record) && {
            &&& record.task_name@ == runs[0].task_name@
            &&& replies[0] matches TaskReply::Fingerprinted { fingerprint, manifest } && {
                &&& record.fingerprint@ == fingerprint@
                &&& record.manifest@ == manifest@
            }
            &&& replies[k - 3] matches TaskReply::Ran(output) && {
                &&& output.success
                &&& record.stdout@ == output.stdout@
                &&& record.stderr@ == output.stderr@
            }
            &&& replies[k - 2] is Promoted
            &&& replies[k - 1] matches TaskReply::Stored { artifacts, created_at, duration_ms } && {
                &&& record.artifacts@ == artifacts@
                &&& record.created_at == created_at
                &&& record.duration_ms == duration_ms
            }
        },
{
    lemma_task_history(runs, replies, k);
    lemma_task_history(runs, replies, k - 1);
    assert(answers(runs[k - 1].call, replies[k - 1]));
}

/// How a task ended tells what happened. It came from the cache exactly when the
/// store had it. In a dry run nothing but that is told; otherwise a task from the
/// cache was put back, and any other was run with success, had its outputs promoted
/// and, unless the cache is off, was recorded. A task fails exactly when something
/// went wrong.
pub proof fn law_end_tells_what_happened(runs: Seq<TaskRun>, replies: Seq<TaskReply>)
    requires
        is_task_history(runs, replies),
        runs.last().call == TaskCall::Finished,
    ensures
        runs.last().end is Failed <==> exists|j: int|
            0 <= j < replies.len() && is_bad(#[trigger] replies[j]),
        runs.last().end is Failed || runs.last().end is Done,
        runs.last().end matches TaskEnd::Done { from_cache, dry_run } ==> {
            &&& dry_run == runs[0].dry_run
            &&& from_cache <==> exists|j: int| 0 <= j < replies.len() && is_hit(#[trigger] replies[j])
            &&& runs.last().told == Some(
                if dry_run {
                    TaskStatus::DryRun
                } else if from_cache {
                    TaskStatus::CacheHit
                } else {
                    TaskStatus::Executed
                },
            )
            &&& !dry_run && from_cache ==> replies.last() is Restored
            &&& !dry_run && !from_cache && runs[0].no_cache ==> {
                &&& replies.last() is Promoted
                &&& replies.len() >= 2
                &&& replies[replies.len() - 2] matches TaskReply::Ran(output) && output.success
            }
            &&& !dry_run && !from_cache && !runs[0].no_cache ==> {
                &&& replies.last() is Saved
                &&& runs[runs.len() - 2].call == TaskCall::SaveExecution
            }
        },
        runs.last().told == Some(TaskStatus::Failed) <==> replies.last() is Ran && is_bad(
            replies.last(),
        ),
{
    let n = replies.len() as int;
    assert(n > 0);
    lemma_task_history(runs, replies, n);
    lemma_task_history(runs, replies, n - 1);
    assert(answers(runs[n - 1].call, replies[n - 1]));
    let last = replies[n - 1];
    assert(replies.last() == last);
    if runs[n - 1].call == TaskCall::Restore {
        assert(is_hit(replies[1]));
    }
    if runs[n - 1].call == TaskCall::Promote {
        assert(answers(runs[n - 2].call, replies[n - 2]));
    }
    if is_bad(last) {
        assert(is_bad(replies[n - 1]));
    }
    if is_hit(last) {
        assert(is_hit(replies[n - 1]));
    }
}

/// Each step of a task follows from what the task is run with and from what came
/// back. The cache is looked up unless it is bypassed. A task that it does not have is
/// run, after a look at its newest execution where the miss is to be explained; one
/// that it has is put back. A dry run stops there.
pub proof fn law_steps_of_a_task(run: TaskRun, reply: TaskReply, next: TaskRun)
    requires
        answers(run.call, reply),
        run.becomes(reply, next),
    ensures
        run.call == TaskCall::Fingerprint && !is_bad(reply) ==> next.call == (if !run.force
            && !run.no_cache {
            TaskCall::FetchExecution
        } else if run.dry_run {
            TaskCall::Finished
        } else {
            TaskCall::Stage
        }),
        run.call == TaskCall::FetchExecution && !is_bad(reply) ==> next.call == (if is_hit(reply) {
            if run.dry_run {
                TaskCall::Finished
            } else {
                TaskCall::Restore
            }
        } else if run.explain {
            TaskCall::FetchLatest
        } else if run.dry_run {
            TaskCall::Finished
        } else {
            TaskCall::Stage
        }),
        run.call == TaskCall::FetchLatest && !is_bad(reply) ==> next.call == (if run.dry_run {
            TaskCall::Finished
        } else {
            TaskCall::Stage
        }),
        run.call == TaskCall::Stage && !is_bad(reply) ==> next.call == TaskCall::Promote,
        run.call == TaskCall::Promote && !is_bad(reply) ==> next.call == (if run.no_cache {
            TaskCall::Finished
        } else {
            TaskCall::StoreArtifacts
        }),
        run.call == TaskCall::StoreArtifacts && !is_bad(reply) ==> next.call
            == TaskCall::SaveExecution,
        run.call == TaskCall::Restore || run.call == TaskCall::SaveExecution || is_bad(reply)
            ==> next.call == TaskCall::Finished,
        next.outputs@ == run.outputs@,
{
}

/// What is said of a failure names the task and the cause, and of a command that
/// failed its status and all that it wrote.
pub proof fn law_failure_is_told(run: TaskRun, reply: TaskReply, next: TaskRun)
    requires
        answers(run.call, reply),
        run.becomes(reply, next),
        is_bad(reply),
    ensures
        next.end matches TaskEnd::Failed(text) && match reply {
            TaskReply::Ran(output) => text@ =~= "task '"@ + run.task_name@ + "' failed with status "@
                + output.status@ + "\nstdout:\n"@ + output.stdout@ + "\nstderr:\n"@ + output.stderr@,
            TaskReply::Failed(cause) => {
                &&& run.call == TaskCall::Restore ==> text@ =~= "restoring cache hit for task '"@
                    + run.task_name@ + "': "@ + cause@
                &&& run.call == TaskCall::Stage ==> text@ =~= "executing task '"@ + run.task_name@
                    + "': "@ + cause@
                &&& run.call == TaskCall::Promote ==> text@ =~= "promoting outputs for task '"@
                    + run.task_name@ + "': "@ + cause@
                &&& run.call != TaskCall::Restore && run.call != TaskCall::Stage && run.call
                    != TaskCall::Promote ==> text@ == cause@
            },
            TaskReply::NotStaged(cause) => text@ == cause@,
            _ => false,
        },
{
}

/// A miss is explained only where that is asked for, by what bypassed the cache or by
/// the changes since the newest execution.
pub proof fn law_reasons_of_a_task(runs: Seq<TaskRun>, replies: Seq<TaskReply>, k: int)
    requires
        is_task_history(runs, replies),
        0 <= k < runs.len(),
        !(runs[k].end is Failed),
    ensures
        !runs[0].explain ==> runs[k].reasons@.len() == 0,
        (exists|j: int| 0 <= j < k && is_hit(#[trigger] replies[j])) ==> runs[k].reasons@.len() == 0,
        runs[0].explain && runs[k].call == TaskCall::Stage ==> {
            &&& replies[0] matches TaskReply::Fingerprinted { manifest, .. } && miss_reasons(
                runs[0].force,
                runs[0].no_cache,
                if runs[0].force || runs[0].no_cache {
                    None
                } else {
                    match replies[2] {
                        TaskReply::Latest(Some(m)) => Some(text_values(m@)),
                        _ => None,
                    }
                },
                text_values(manifest@),
                texts(runs[k].reasons@),
            )
        },
    decreases k,
{
    lemma_task_history(runs, replies, k);
    if k > 0 {
        lemma_task_history(runs, replies, k - 1);
        assert(answers(runs[k - 1].call, replies[k - 1]));
        law_reasons_of_a_task(runs, replies, k - 1);
        if k > 1 {
            assert(answers(runs[k - 2].call, replies[k - 2]));
            lemma_task_history(runs, replies, k - 2);
        }
        if exists|j: int| 0 <= j < k && is_hit(#[trigger] replies[j]) {
            let j = choose|j: int| 0 <= j < k && is_hit(#[trigger] replies[j]);
            if j < k - 1 {
                assert(is_hit(replies[j]));
            }
        }
    }
}

/// Whether the artifacts are what a store records of the outputs, as they stand in the
/// workspace on the disk.
pub open spec fn are_recorded(
    artifacts: Seq<CachedArtifact>,
    outputs: Seq<Seq<char>>,
    workspace: Seq<char>,
    disk: Map<Seq<char>, Content>,
) -> bool {
    &&& artifacts.len() == outputs.len()
    &&& forall|i: int|
        0 <= i < outputs.len() ==> {
            &&& (#[trigger] artifacts[i]).relative_path@ == outputs[i]
            &&& object_of(disk[joined_path(workspace, outputs[i])]) == Some(
                (artifacts[i].object_hash@, artifacts[i].kind),
            )
        }
}

/// A task that was run and recorded is given back by a later run that finds its record:
/// each output stands at its place again with the content that it had when it was
/// stored, whatever became of it in between, and every other path is as it was. `disk`
/// is the one whose outputs were stored, `later` any on which the objects are as they
/// were left.
pub proof fn law_recorded_outputs_come_back(
    first: TaskRun,
    artifacts: Vec<CachedArtifact>,
    created_at: i64,
    duration_ms: u64,
    saving: TaskRun,
    second: TaskRun,
    record: ExecutionRecord,
    restoring: TaskRun,
    store: LocalArtifactStore,
    workspace: Seq<char>,
    disk: Map<Seq<char>, Content>,
    later: Map<Seq<char>, Content>,
)
    requires
        first.becomes(TaskReply::Stored { artifacts, created_at, duration_ms }, saving),
        are_recorded(artifacts@, texts(first.outputs@), workspace, disk),
        saving.record matches Some(saved) && same_record(record, saved),
        second.becomes(TaskReply::Fetched(Some(record)), restoring),
        !second.dry_run,
        ({
            let outputs = texts(first.outputs@);
            let places = places_in(workspace, outputs);
            let targets = targets_in(workspace, outputs);
            let objects = objects_of(store, disk, places);
            let stored = all_applied(disk, storing_all(places, objects));
            &&& can_keep(disk, places, objects)
            &&& targets.no_duplicates()
            &&& forall|i: int| 0 <= i < objects.len() ==> !targets.contains(#[trigger] objects[i])
            &&& forall|i: int|
                0 <= i < objects.len() ==> agrees(later, stored, #[trigger] objects[i])
        }),
    ensures
        saving.call == TaskCall::SaveExecution,
        restoring.call == TaskCall::Restore,
        ({
            let back = all_applied(
                later,
                restoring_all(
                    kept_at(store, restoring.artifacts@),
                    bound_for(workspace, restoring.artifacts@),
                ),
            );
            &&& forall|i: int|
                0 <= i < first.outputs@.len() ==> {
                    let output = (#[trigger] first.outputs@[i])@;
                    let place = joined_path(workspace, normalized(output)->Ok_0);
                    &&& back.contains_key(place)
                    &&& same_content(back[place], disk[joined_path(workspace, output)])
                }
            &&& forall|path: Seq<char>|
                !targets_in(workspace, texts(first.outputs@)).contains(path) ==> #[trigger] agrees(
                    back,
                    later,
                    path,
                )
        }),
{
    let outputs = texts(first.outputs@);
    let places = places_in(workspace, outputs);
    let targets = targets_in(workspace, outputs);
    let objects = objects_of(store, disk, places);
    assert forall|i: int| 0 <= i < artifacts@.len() implies objects[i] == store.object_path(
        (#[trigger] artifacts@[i]).object_hash@,
    ) by {
        assert(places[i] == joined_path(workspace, outputs[i]));
    }
    assert(kept_at(store, restoring.artifacts@) =~= objects);
    assert(bound_for(workspace, restoring.artifacts@) =~= targets);
    law_restore_gives_stored_outputs_back(store, disk, workspace, outputs, later);
    let back = all_applied(later, restoring_all(objects, targets));
    assert forall|i: int| 0 <= i < first.outputs@.len() implies {
        let output = (#[trigger] first.outputs@[i])@;
        let place = joined_path(workspace, normalized(output)->Ok_0);
        &&& back.contains_key(place)
        &&& same_content(back[place], disk[joined_path(workspace, output)])
    } by {
        assert(outputs[i] == first.outputs@[i]@);
        assert(back.contains_key(targets[i]));
    }
}

/// A reply that brings a record has the record's outputs put back: the call is to restore
/// them, and they are the record's, each of them. In a dry run nothing is put back.
pub proof fn law_found_record_is_put_back(run: &mut TaskRun, record: ExecutionRecord)
    requires
        call_ensures(TaskRun::next, (run, TaskReply::Fetched(Some(record))), ()),
    ensures
        !old(run).dry_run ==> final(run).call == TaskCall::Restore && final(run).artifacts@.len()
            == record.artifacts@.len() && forall|i: int|
            0 <= i < record.artifacts@.len() ==> (#[trigger] final(run).artifacts@[i]) == record.artifacts@[i],
        old(run).dry_run ==> final(run).call == TaskCall::Finished && final(run).told == Some(
            TaskStatus::DryRun,
        ),
        final(run).task_name@ == old(run).task_name@,
        final(run).outputs@ == old(run).outputs@,
{
}

/// Every reply takes the run on as it is said to.
pub proof fn law_reply_takes_the_run_on(run: &mut TaskRun, reply: TaskReply)
    requires
        call_ensures(TaskRun::next, (run, reply), ()),
    ensures
        old(run).becomes(reply, *final(run)),
        final(run).task_name@ == old(run).task_name@,
        final(run).dry_run == old(run).dry_run,
        final(run).force == old(run).force,
        final(run).no_cache == old(run).no_cache,
        final(run).explain == old(run).explain,
        final(run).outputs@ == old(run).outputs@,
{
}

/// A task begins with its fingerprint. It is forced when the run is, or when it is named among
/// the forced ones. One that is not declared fails, and so does one of whose outputs a path is
/// refused.
pub proof fn law_task_begins_with_its_fingerprint(
    name: &str,
    spec: Option<&TaskSpec>,
    options: RunOptions,
    r: TaskRun,
)
    requires
        call_ensures(TaskRun::start, (name, spec, &options), r),
    ensures
        r.task_name@ == name@,
        options.force ==> r.force,
        (exists|i: int| 0 <= i < options.force_tasks@.len() && (#[trigger] options.force_tasks@[i])@ == name@)
            ==> r.force,
        r.force ==> options.force || exists|i: int|
            0 <= i < options.force_tasks@.len() && (#[trigger] options.force_tasks@[i])@ == name@,
        r.no_cache == options.no_cache,
        r.explain == options.explain,
        r.dry_run == options.dry_run,
        spec is None ==> (r.end matches TaskEnd::Failed(text) && text@ == "task '"@ + name@ + "' not found"@)
            && r.call == TaskCall::Finished,
        (spec matches Some(task) ==> (forall|i: int|
            0 <= i < task.outputs@.len() ==> normalized((#[trigger] task.outputs@[i])@) is Ok)
            ==> r.call == TaskCall::Fingerprint && r.end is Open && r.outputs@.len() == task.outputs@.len()
            && forall|i: int|
            0 <= i < task.outputs@.len() ==> normalized(task.outputs@[i]@) == Ok::<Seq<char>, PathError>(
                (#[trigger] r.outputs@[i])@,
            )),
        (spec matches Some(task) ==> (exists|i: int|
            0 <= i < task.outputs@.len() && normalized((#[trigger] task.outputs@[i])@) is Err) ==> r.end
            is Failed && r.call == TaskCall::Finished),
        r.told is None,
{
    let forced = texts(options.force_tasks@);
    if exists|i: int| 0 <= i < options.force_tasks@.len() && (#[trigger] options.force_tasks@[i])@ == name@ {
        let i = choose|i: int|
            0 <= i < options.force_tasks@.len() && (#[trigger] options.force_tasks@[i])@ == name@;
        assert(forced[i] == name@);
    }
    if forced.contains(name@) {
        let i = choose|i: int| 0 <= i < forced.len() && forced[i] == name@;
        assert(options.force_tasks@[i]@ == name@);
    }
    if let Some(task) = spec {
        let all = texts(task.outputs@);
        crate::executor::lemma_cleaned_len(all);
        if forall|i: int| 0 <= i < task.outputs@.len() ==> normalized((#[trigger] task.outputs@[i])@) is Ok {
            assert forall|i: int| 0 <= i < all.len() implies normalized(#[trigger] all[i]) is Ok by {
                assert(normalized(task.outputs@[i]@) is Ok);
            }
            assert(cleaned(all).len() == all.len());
            assert(texts(r.outputs@).len() == r.outputs@.len());
            assert forall|i: int| 0 <= i < task.outputs@.len() implies normalized(task.outputs@[i]@)
                == Ok::<Seq<char>, PathError>((#[trigger] r.outputs@[i])@) by {
                assert(texts(r.outputs@)[i] == r.outputs@[i]@);
                assert(all[i] == task.outputs@[i]@);
            }
        }
        if exists|i: int| 0 <= i < task.outputs@.len() && normalized((#[trigger] task.outputs@[i])@) is Err {
            let i = choose|i: int|
                0 <= i < task.outputs@.len() && normalized((#[trigger] task.outputs@[i])@) is Err;
            assert(normalized(all[i]) is Err);
        }
    }
}

/// What became of a task is told as it ended: with its name, whether it came from the cache,
/// whether it was a dry run, and the reasons; of a failure, what was said of it.
pub proof fn law_outcome_is_how_it_ended(run: TaskRun, r: Result<TaskOutcome, String>)
    requires
        call_ensures(TaskRun::outcome, (run,), r),
    ensures
        run.end matches TaskEnd::Done { from_cache, dry_run } ==> (r matches Ok(outcome) && {
            &&& outcome.task_name@ == run.task_name@
            &&& outcome.from_cache == from_cache
            &&& outcome.dry_run == dry_run
            &&& outcome.cache_miss_reasons@ == run.reasons@
        }),
        run.end matches TaskEnd::Failed(text) ==> (r matches Err(e) && e@ == text@),
{
}

} // verus!
