//! What a store of task executions keeps and offers.

use vstd::prelude::*;
use crate::text_map::TextMap;

verus! {

/// What an artifact is on disk.
#[derive(Debug, Clone, Copy, PartialEq, Eq, Structural)]
pub enum ArtifactKind {
    File,
    Directory,
}

/// An output of a task, as the store keeps it.
#[derive(Debug, Clone, PartialEq, Eq)]
pub struct CachedArtifact {
    /// Where the output stands, seen from the workspace.
    pub relative_path: String,
    /// The hash under which its content is kept.
    pub object_hash: String,
    pub kind: ArtifactKind,
}

/// One finished execution of a task.
#[derive(Debug, Clone)]
pub struct ExecutionRecord {
    pub task_name: String,
    pub fingerprint: String,
    /// What went into the fingerprint, by name.
    pub manifest: TextMap<String>,
    pub artifacts: Vec<CachedArtifact>,
    pub stdout: String,
    pub stderr: String,
    /// Seconds since the epoch.
    pub created_at: i64,
    /// How long the run took, in milliseconds. Zero for records that were
    /// written before durations were kept.
    pub duration_ms: u64,
}

/// What a prune removed and what it left.
#[derive(Debug, Clone, Copy, PartialEq, Eq, Structural)]
pub struct PruneReport {
    pub removed_objects: usize,
    pub removed_bytes: u64,
    pub remaining_bytes: u64,
}

/// How much a store keeps on disk.
#[derive(Debug, Clone, Copy, PartialEq, Eq, Structural)]
pub struct StoreStats {
    pub object_count: usize,
    pub total_bytes: u64,
}

impl Default for StoreStats {
    fn default() -> (r: StoreStats)
        ensures
            r == (StoreStats { object_count: 0, total_bytes: 0 }),
    {
        StoreStats { object_count: 0, total_bytes: 0 }
    }
}

/// Why a store could not do what it was asked.
#[derive(Debug, Clone, PartialEq, Eq)]
pub struct StoreError {
    pub message: String,
}

/// A store of task executions and of the outputs they produced.
///
/// Paths are text; outputs are relative to the workspace.
pub trait ArtifactStore: Send + Sync {
    /// The execution of the task that has this fingerprint, if any.
    fn fetch_execution(&self, task_name: &str, fingerprint: &str) -> Result<
        Option<ExecutionRecord>,
        StoreError,
    >;

    /// The newest execution of the task, if any.
    fn fetch_latest_execution(&self, task_name: &str) -> Result<Option<ExecutionRecord>, StoreError>;

    /// Up to `limit` records, the newest first: those of one task, or the
    /// newest of each task.
    fn fetch_history(&self, task: Option<&str>, limit: usize) -> Result<
        Vec<ExecutionRecord>,
        StoreError,
    >;

    /// Keeps the record, in place of one with the same task and fingerprint.
    fn save_execution(&self, record: &ExecutionRecord) -> Result<(), StoreError>;

    /// Takes the outputs into the store.
    fn store_artifacts(&self, workspace: &str, outputs: &Vec<String>) -> Result<
        Vec<CachedArtifact>,
        StoreError,
    >;

    /// Puts the outputs back into the workspace.
    fn restore_artifacts(&self, workspace: &str, artifacts: &Vec<CachedArtifact>) -> Result<
        (),
        StoreError,
    >;

    /// Removes the oldest objects until the rest fits.
    fn prune(&self, max_size_mb: u64) -> Result<PruneReport, StoreError>;

    /// How much the store keeps. A store that cannot tell reports zeros.
    fn stats(&self) -> (r: Result<StoreStats, StoreError>)
        default_ensures
            r == Ok::<StoreStats, StoreError>(StoreStats { object_count: 0, total_bytes: 0 }),
    {
        Ok(StoreStats::default())
    }
}

/// Whether the store may answer so when it is asked for the newest execution of
/// the task.
pub open spec fn may_answer<S: ArtifactStore>(
    store: &S,
    task: Seq<char>,
    answer: Result<Option<ExecutionRecord>, StoreError>,
) -> bool {
    exists|name: &str|
        name@ == task && #[trigger] call_ensures(S::fetch_latest_execution, (store, name), answer)
}

/// The duration and the time stamp of the execution that the store answered
/// with, if it did with one.
pub open spec fn answered(answer: Result<Option<ExecutionRecord>, StoreError>) -> Option<(u64, i64)> {
    match answer {
        Ok(Some(record)) => Some((record.duration_ms, record.created_at)),
        _ => None,
    }
}

/// Whether the store, asked for the newest execution of the task, may tell this
/// of its duration and its time stamp.
pub open spec fn may_tell<S: ArtifactStore>(
    store: &S,
    task: Seq<char>,
    told: Option<(u64, i64)>,
) -> bool {
    exists|answer: Result<Option<ExecutionRecord>, StoreError>| #[trigger]
        may_answer(store, task, answer) && told == answered(answer)
}

/// The duration and the time stamp of the newest execution of the task, as far as
/// the store tells: there are none when it knows of no execution or fails.
pub(crate) fn ask_latest<S: ArtifactStore>(store: &S, task: &str) -> (told: Option<(u64, i64)>)
    ensures
        may_tell(store, task@, told),
{
    let answer = store.fetch_latest_execution(task);
    assert(call_ensures(S::fetch_latest_execution, (store, task), answer));
    assert(may_answer(store, task@, answer));
    match answer {
        Ok(Some(record)) => Some((record.duration_ms, record.created_at)),
        _ => None,
    }
}

/// What a store tells of a task's newest execution is what it answers: the duration and the
/// time stamp of the record, and nothing where it has none or fails.
pub proof fn law_store_tells_what_it_answers<S: ArtifactStore>(
    store: S,
    task: Seq<char>,
    told: Option<(u64, i64)>,
)
    requires
        may_tell(&store, task, told),
    ensures
        exists|name: &str, answer: Result<Option<ExecutionRecord>, StoreError>|
            name@ == task && #[trigger] call_ensures(S::fetch_latest_execution, (&store, name), answer) && (
            match answer {
                Ok(Some(record)) => told == Some((record.duration_ms, record.created_at)),
                Ok(None) => told is None,
                Err(_) => told is None,
            }),
{
    let answer = choose|answer: Result<Option<ExecutionRecord>, StoreError>| #[trigger]
        may_answer(&store, task, answer) && told == answered(answer);
    let name = choose|name: &str|
        name@ == task && #[trigger] call_ensures(S::fetch_latest_execution, (&store, name), answer);
    assert(call_ensures(S::fetch_latest_execution, (&store, name), answer));
}

} // verus!
