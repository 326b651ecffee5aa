//! What the executor tells an observer while it runs a target.

use vstd::prelude::*;
use crate::time::Duration;

verus! {

/// The stream a line of output was written to.
#[derive(Debug, Clone, Copy, PartialEq, Eq, Structural)]
pub enum LogStream {
    Stdout,
    Stderr,
}

/// A step within the execution of a task, known by its label.
#[derive(Debug, Clone, PartialEq, Eq)]
pub struct TaskPhase {
    pub label: String,
}

/// How a task ended.
#[derive(Debug, Clone, Copy, PartialEq, Eq, Structural)]
pub enum TaskStatus {
    Executed,
    CacheHit,
    DryRun,
    Failed,
    Skipped,
}

/// How a task is run: as a cached node of the graph, or attached to the
/// terminal.
#[derive(Debug, Clone, Copy, PartialEq, Eq, Structural)]
pub enum TaskMode {
    Graph,
    Interactive,
}

/// One step of a run.
#[derive(Debug, Clone)]
pub enum ProgressEvent {
    RunStarted { target: String, layers: Vec<Vec<String>> },
    TaskQueued { task: String },
    TaskStarted { task: String, mode: TaskMode },
    TaskPhase { task: String, phase: TaskPhase, elapsed: Duration },
    LogLine { task: String, stream: LogStream, line: String },
    TaskFinished {
        task: String,
        status: TaskStatus,
        duration: Duration,
        error: Option<String>,
        cache_reasons: Vec<String>,
    },
    RunFinished,
}

} // verus!
