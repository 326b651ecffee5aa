//! The state of the dashboard.
//!
//! Everything the dashboard learns is folded into a [`TuiState`] through
//! [`TuiState::apply`]; nothing here reads or writes anything else.

use std::collections::VecDeque;

use vstd::prelude::*;
use crate::event::{LogStream, ProgressEvent, TaskPhase, TaskStatus};
use crate::text::{copy_all, lists, texts};
use crate::text_map::TextMap;
use crate::time::Duration;

verus! {

/// Where a task stands in its life, as the dashboard has seen it.
#[derive(Debug, Clone, Copy, PartialEq, Eq, Structural)]
pub enum TaskState {
    Queued,
    Running,
    Cached,
    Done,
    Failed,
    DryRun,
    Skipped,
}

/// One line of output.
#[derive(Debug, Clone)]
pub struct LogLineRecord {
    pub stream: LogStream,
    pub line: String,
}

/// How many lines of output are kept for one task; older lines are dropped.
pub const LOG_CAPACITY: usize = 4096;

/// What the dashboard knows of one task.
#[derive(Debug, Clone)]
pub struct TaskInfo {
    pub state: TaskState,
    pub current_phase: Option<TaskPhase>,
    pub phase_count: u32,
    pub duration: Duration,
    pub error: Option<String>,
    pub logs: VecDeque<LogLineRecord>,
    /// How many lines the view is scrolled up from the last line. Zero shows
    /// the last line.
    pub scrollback: usize,
    /// Whether new lines keep the view at the last line. Switched off when the
    /// user scrolls up, and on again when the view is back at the last line.
    pub follow_tail: bool,
    /// Why the task was or was not taken from the cache.
    pub cache_reasons: Vec<String>,
}

impl TaskInfo {
    /// The record of a task of which nothing is known yet.
    pub open spec fn is_fresh(&self) -> bool {
        &&& self.state == TaskState::Queued
        &&& self.current_phase is None
        &&& self.phase_count == 0
        &&& self.duration.nanos == 0
        &&& self.error is None
        &&& self.logs@.len() == 0
        &&& self.scrollback == 0
        &&& self.follow_tail
        &&& self.cache_reasons@.len() == 0
    }

    /// The log view is in order: no more lines than the buffer may hold, at
    /// least one line left in view, and the last line in view while the view
    /// follows it.
    pub open spec fn view_ok(&self) -> bool {
        &&& self.logs@.len() <= LOG_CAPACITY
        &&& self.scrollback == 0 || self.scrollback < self.logs@.len()
        &&& self.follow_tail ==> self.scrollback == 0
    }

    /// The two records agree on all but their log view.
    pub open spec fn same_but_view(&self, other: &TaskInfo) -> bool {
        &&& self.state == other.state
        &&& self.current_phase == other.current_phase
        &&& self.phase_count == other.phase_count
        &&& self.duration == other.duration
        &&& self.error == other.error
        &&& self.cache_reasons == other.cache_reasons
    }

    /// How far the view can be scrolled up: until only the first line is left.
    pub open spec fn top(self) -> int {
        if self.logs@.len() == 0 {
            0
        } else {
            self.logs@.len() - 1
        }
    }

    /// The view scrolled up by `lines`. By no lines, it stays as it is.
    pub open spec fn scrolled_up(self, lines: nat) -> TaskInfo {
        let to = if self.scrollback + lines < self.top() {
            self.scrollback + lines
        } else {
            self.top()
        };
        if lines == 0 {
            self
        } else {
            TaskInfo { scrollback: to as usize, follow_tail: to == 0, ..self }
        }
    }

    /// The view scrolled down by `lines`.
    pub open spec fn scrolled_down(self, lines: nat) -> TaskInfo {
        let to = if self.scrollback > lines {
            self.scrollback - lines
        } else {
            0
        };
        TaskInfo { scrollback: to as usize, follow_tail: to == 0 || self.follow_tail, ..self }
    }

    /// The view scrolled up to the first line.
    pub open spec fn scrolled_home(self) -> TaskInfo {
        TaskInfo { scrollback: self.top() as usize, follow_tail: false, ..self }
    }

    /// The view back at the last line.
    pub open spec fn scrolled_end(self) -> TaskInfo {
        TaskInfo { scrollback: 0, follow_tail: true, ..self }
    }
}

impl Default for TaskInfo {
    fn default() -> (r: TaskInfo)
        ensures
            r.is_fresh(),
    {
        TaskInfo {
            state: TaskState::Queued,
            current_phase: None,
            phase_count: 0,
            duration: Duration::zero(),
            error: None,
            logs: VecDeque::new(),
            scrollback: 0,
            follow_tail: true,
            cache_reasons: Vec::new(),
        }
    }
}

/// How far the user has gone in cancelling the run.
#[derive(Debug, Clone, Copy, PartialEq, Eq, Structural)]
pub enum CancelState {
    Idle,
    /// Interrupted once: pending tasks are skipped, running ones go on.
    Soft,
    /// Interrupted again in time: running tasks have been signalled as well.
    Hard,
}

/// A request to run something again, made after a run has finished.
#[derive(Debug, Clone, PartialEq, Eq)]
pub struct RerunRequest {
    /// The target of the next run.
    pub task: String,
    /// Whether every task is run again, or only `task`.
    pub force_all: bool,
}

/// Everything the dashboard shows.
#[derive(Debug, Clone)]
pub struct TuiState {
    /// The target, once the run has started.
    pub target: Option<String>,
    /// The layers of the task graph.
    pub layers: Vec<Vec<String>>,
    /// The tasks, layer by layer, in the order in which they are listed.
    pub task_order: Vec<String>,
    /// What is known of each task.
    pub tasks: TextMap<TaskInfo>,
    /// The cursor, a position in `task_order`.
    pub selected: Option<usize>,
    /// Whether the run has finished.
    pub run_finished: bool,
    pub running_count: u32,
    pub done_count: u32,
    pub cached_count: u32,
    pub failed_count: u32,
    /// How long each task is expected to take, from earlier runs.
    pub etas: TextMap<Duration>,
    pub cancel: CancelState,
    /// A request that the application has not taken up yet.
    pub pending_rerun: Option<RerunRequest>,
}

/// The layers one after the other.
pub open spec fn flattened(layers: Seq<Vec<String>>) -> Seq<String>
    decreases layers.len(),
{
    if layers.len() == 0 {
        Seq::empty()
    } else {
        flattened(layers.drop_last()) + layers.last()@
    }
}

/// The layers one after the other.
fn flatten(layers: &Vec<Vec<String>>) -> (r: Vec<String>)
    ensures
        r@ == flattened(layers@),
{
    let mut r: Vec<String> = Vec::new();
    let mut i: usize = 0;
    while i < layers.len()
        invariant
            i <= layers.len(),
            r@ == flattened(layers@.take(i as int)),
        decreases layers.len() - i,
    {
        let mut layer = copy_all(&layers[i]);
        r.append(&mut layer);
        assert(layers@.take(i + 1).drop_last() =~= layers@.take(i as int));
        i += 1;
    }
    assert(layers@.take(layers.len() as int) =~= layers@);
    r
}

/// Scrolling down undoes scrolling up, as far as the log reaches: the same line
/// is at the bottom of the view again, and the view follows the last line if
/// and only if it is that line.
pub proof fn law_scroll_down_undoes_up(info: TaskInfo, lines: nat)
    requires
        info.view_ok(),
        info.scrollback + lines <= info.top(),
    ensures
        info.scrolled_up(lines).scrolled_down(lines).scrollback == info.scrollback,
        info.scrolled_up(lines).scrolled_down(lines).follow_tail <==> info.scrollback == 0,
{
}

/// However far up it was scrolled, a view that is scrolled down by at least as
/// many lines shows the last line and follows it.
pub proof fn law_scroll_down_resumes_following(info: TaskInfo, up: nat, down: nat)
    requires
        info.view_ok(),
        down >= info.top(),
    ensures
        info.scrolled_up(up).scrolled_down(down) == info.scrolled_end(),
        info.scrolled_home().scrolled_down(down) == info.scrolled_end(),
{
}

/// `info` is the record of the task `k` before an event of that task is folded
/// in: the one there is, or a fresh one.
pub open spec fn record_before(tasks: Map<Seq<char>, TaskInfo>, k: Seq<char>, info: TaskInfo) -> bool {
    if tasks.contains_key(k) {
        info == tasks[k]
    } else {
        info.is_fresh()
    }
}

impl TuiState {
    /// The maps are in order and each listed task has a record.
    pub open spec fn wf(&self) -> bool {
        &&& self.tasks.wf()
        &&& self.etas.wf()
        &&& forall|i: int|
            0 <= i < self.task_order@.len() ==> self.tasks@.contains_key(#[trigger] self.task_order@[i]@)
    }

    /// The log view of every task is in order.
    pub open spec fn views_ok(&self) -> bool {
        forall|k: Seq<char>| #[trigger] self.tasks@.contains_key(k) ==> self.tasks@[k].view_ok()
    }

    /// Only the record of the task `k` differs.
    pub open spec fn only_task(&self, before: &TuiState, k: Seq<char>) -> bool {
        &&& self.tasks@ == before.tasks@.insert(k, self.tasks@[k])
        &&& self.target == before.target
        &&& self.layers == before.layers
        &&& self.selected == before.selected
        &&& self.run_finished == before.run_finished
        &&& self.etas == before.etas
        &&& self.cancel == before.cancel
        &&& self.pending_rerun == before.pending_rerun
    }

    /// The four counters are the same.
    pub open spec fn same_counts(&self, before: &TuiState) -> bool {
        &&& self.running_count == before.running_count
        &&& self.done_count == before.done_count
        &&& self.cached_count == before.cached_count
        &&& self.failed_count == before.failed_count
    }

    /// Nothing overflows when `event` is folded in.
    pub open spec fn has_room(&self, event: ProgressEvent) -> bool {
        match event {
            ProgressEvent::TaskStarted { task, mode } => self.running_count < u32::MAX,
            ProgressEvent::TaskPhase { task, phase, elapsed } => self.tasks@.contains_key(task@) ==> {
                &&& self.tasks@[task@].phase_count < u32::MAX
                &&& self.tasks@[task@].duration.nanos + elapsed.nanos <= u128::MAX
            },
            ProgressEvent::TaskFinished { task, status, duration, error, cache_reasons } => match status {
                TaskStatus::Executed => self.done_count < u32::MAX,
                TaskStatus::CacheHit => self.cached_count < u32::MAX,
                TaskStatus::Failed => self.failed_count < u32::MAX,
                _ => true,
            },
            _ => true,
        }
    }

    /// The state that follows `self` when a run of `target` starts.
    pub open spec fn run_started(&self, target: String, layers: Vec<Vec<String>>, next: &TuiState) -> bool {
        &&& next.target == Some(target)
        &&& next.layers == layers
        &&& next.task_order@ == flattened(layers@)
        &&& forall|k: Seq<char>|
            #[trigger] next.tasks@.contains_key(k) <==> self.tasks@.contains_key(k) || texts(
                flattened(layers@),
            ).contains(k)
        &&& forall|k: Seq<char>|
            #[trigger] next.tasks@.contains_key(k) ==> record_before(self.tasks@, k, next.tasks@[k])
        &&& next.selected == (if flattened(layers@).len() > 0 && self.selected is None {
            Some(0usize)
        } else {
            self.selected
        })
        &&& next.run_finished == self.run_finished
        &&& next.same_counts(self)
        &&& next.etas == self.etas
        &&& next.cancel == self.cancel
        &&& next.pending_rerun == self.pending_rerun
    }

    /// The state that follows `self` when a task is queued.
    pub open spec fn task_queued(&self, task: String, next: &TuiState) -> bool {
        &&& next.only_task(self, task@)
        &&& next.same_counts(self)
        &&& if texts(self.task_order@).contains(task@) {
            next.task_order@ == self.task_order@
        } else {
            next.task_order@ == self.task_order@.push(task)
        }
        &&& exists|b: TaskInfo|
            #[trigger] record_before(self.tasks@, task@, b) && next.tasks@[task@] == (TaskInfo {
                state: TaskState::Queued,
                ..b
            })
    }

    /// The state that follows `self` when a task starts.
    pub open spec fn task_started(&self, task: String, next: &TuiState) -> bool {
        &&& next.only_task(self, task@)
        &&& next.task_order@ == self.task_order@
        &&& next.running_count == self.running_count + 1
        &&& next.done_count == self.done_count
        &&& next.cached_count == self.cached_count
        &&& next.failed_count == self.failed_count
        &&& exists|b: TaskInfo|
            #[trigger] record_before(self.tasks@, task@, b) && next.tasks@[task@] == (TaskInfo {
                state: TaskState::Running,
                ..b
            })
    }

    /// The state that follows `self` when a task enters a phase.
    pub open spec fn phase_entered(
        &self,
        task: String,
        phase: TaskPhase,
        elapsed: Duration,
        next: &TuiState,
    ) -> bool {
        &&& next.only_task(self, task@)
        &&& next.task_order@ == self.task_order@
        &&& next.same_counts(self)
        &&& exists|b: TaskInfo|
            #[trigger] record_before(self.tasks@, task@, b) && next.tasks@[task@] == (TaskInfo {
                current_phase: Some(phase),
                phase_count: (b.phase_count + 1) as u32,
                duration: Duration { nanos: (b.duration.nanos + elapsed.nanos) as u128 },
                ..b
            })
    }

    /// The state that follows `self` when a task writes a line: the line is the
    /// last one of the log, which has dropped its first one if it was full. The
    /// view goes along with a dropped line, and stays at the last line while it
    /// follows it.
    pub open spec fn line_logged(&self, task: String, record: LogLineRecord, next: &TuiState) -> bool {
        &&& next.only_task(self, task@)
        &&& next.task_order@ == self.task_order@
        &&& next.same_counts(self)
        &&& exists|b: TaskInfo| #[trigger]
            record_before(self.tasks@, task@, b) && {
                let a = next.tasks@[task@];
                let full = b.logs@.len() >= LOG_CAPACITY;
                &&& a.same_but_view(&b)
                &&& a.follow_tail == b.follow_tail
                &&& a.logs@ == (if full {
                    b.logs@.drop_first()
                } else {
                    b.logs@
                }).push(record)
                &&& a.scrollback == (if b.follow_tail {
                    0
                } else if full && b.scrollback > 0 {
                    b.scrollback - 1
                } else {
                    b.scrollback as int
                })
            }
    }

    /// The state that follows `self` when a task ends.
    pub open spec fn task_finished(
        &self,
        task: String,
        status: TaskStatus,
        duration: Duration,
        error: Option<String>,
        cache_reasons: Vec<String>,
        next: &TuiState,
    ) -> bool {
        &&& next.only_task(self, task@)
        &&& next.task_order@ == self.task_order@
        &&& next.done_count == self.done_count + (if status == TaskStatus::Executed { 1int } else { 0 })
        &&& next.cached_count == self.cached_count + (if status == TaskStatus::CacheHit { 1int } else { 0 })
        &&& next.failed_count == self.failed_count + (if status == TaskStatus::Failed { 1int } else { 0 })
        &&& exists|b: TaskInfo| #[trigger]
            record_before(self.tasks@, task@, b) && {
                &&& next.running_count == (if b.state == TaskState::Running && self.running_count > 0 {
                    self.running_count - 1
                } else {
                    self.running_count as int
                })
                &&& next.tasks@[task@] == (TaskInfo {
                    state: ended(status),
                    current_phase: None,
                    duration,
                    error,
                    cache_reasons,
                    ..b
                })
            }
    }

    /// The state that follows `self` when `event` is folded in.
    pub open spec fn follows(&self, event: ProgressEvent, next: &TuiState) -> bool {
        match event {
            ProgressEvent::RunStarted { target, layers } => self.run_started(target, layers, next),
            ProgressEvent::TaskQueued { task } => self.task_queued(task, next),
            ProgressEvent::TaskStarted { task, mode } => self.task_started(task, next),
            ProgressEvent::TaskPhase { task, phase, elapsed } => self.phase_entered(
                task,
                phase,
                elapsed,
                next,
            ),
            ProgressEvent::LogLine { task, stream, line } => self.line_logged(
                task,
                LogLineRecord { stream, line },
                next,
            ),
            ProgressEvent::TaskFinished { task, status, duration, error, cache_reasons } => self.task_finished(
                task,
                status,
                duration,
                error,
                cache_reasons,
                next,
            ),
            ProgressEvent::RunFinished => *next == (TuiState { run_finished: true, ..*self }),
        }
    }

    /// The state before anything has happened.
    pub open spec fn is_initial(&self) -> bool {
        &&& self.target is None
        &&& self.layers@.len() == 0
        &&& self.task_order@.len() == 0
        &&& self.tasks@ == Map::<Seq<char>, TaskInfo>::empty()
        &&& self.selected is None
        &&& !self.run_finished
        &&& self.running_count == 0
        &&& self.done_count == 0
        &&& self.cached_count == 0
        &&& self.failed_count == 0
        &&& self.cancel == CancelState::Idle
        &&& self.pending_rerun is None
    }

    /// The state before anything has happened, with nothing known of how long
    /// tasks take.
    pub fn new() -> (r: TuiState)
        ensures
            r.wf(),
            r.views_ok(),
            r.is_initial(),
            r.etas@ == Map::<Seq<char>, Duration>::empty(),
    {
        TuiState::with_etas(TextMap::new())
    }

    /// The state before anything has happened, with the expected durations.
    pub fn with_etas(etas: TextMap<Duration>) -> (r: TuiState)
        requires
            etas.wf(),
        ensures
            r.wf(),
            r.views_ok(),
            r.is_initial(),
            r.etas == etas,
    {
        TuiState {
            target: None,
            layers: Vec::new(),
            task_order: Vec::new(),
            tasks: TextMap::new(),
            selected: None,
            run_finished: false,
            running_count: 0,
            done_count: 0,
            cached_count: 0,
            failed_count: 0,
            etas,
            cancel: CancelState::Idle,
            pending_rerun: None,
        }
    }

    /// What the task at position `i` of the order still has to run, as far as
    /// that is known: its expected duration while it is queued or running.
    pub open spec fn eta_at(&self, i: int) -> nat {
        let k = self.task_order@[i]@;
        if self.tasks@.contains_key(k) && (self.tasks@[k].state == TaskState::Queued
            || self.tasks@[k].state == TaskState::Running) && self.etas@.contains_key(k) {
            self.etas@[k].nanos as nat
        } else {
            0
        }
    }

    /// The sum of [`TuiState::eta_at`] over the first `n` tasks of the order.
    pub open spec fn eta_sum(&self, n: nat) -> nat
        decreases n,
    {
        if n == 0 {
            0
        } else {
            self.eta_sum((n - 1) as nat) + self.eta_at(n - 1)
        }
    }

    proof fn lemma_eta_sum_grows(&self, m: nat, n: nat)
        requires
            m <= n,
        ensures
            self.eta_sum(m) <= self.eta_sum(n),
        decreases n,
    {
        if m < n {
            self.lemma_eta_sum_grows(m, (n - 1) as nat);
        }
    }

    /// The expected duration of all tasks that are still queued or running.
    pub fn remaining_eta(&self) -> (r: Duration)
        requires
            self.wf(),
            self.eta_sum(self.task_order@.len()) <= u128::MAX,
        ensures
            r.nanos == self.eta_sum(self.task_order@.len()),
    {
        let mut sum: u128 = 0;
        let mut i: usize = 0;
        while i < self.task_order.len()
            invariant
                self.wf(),
                i <= self.task_order.len(),
                self.eta_sum(self.task_order@.len()) <= u128::MAX,
                sum == self.eta_sum(i as nat),
            decreases self.task_order.len() - i,
        {
            let name = self.task_order[i].as_str();
            proof {
                self.lemma_eta_sum_grows((i + 1) as nat, self.task_order@.len());
            }
            if let Some(info) = self.tasks.get(name) {
                if info.state == TaskState::Queued || info.state == TaskState::Running {
                    if let Some(eta) = self.etas.get(name) {
                        sum = sum + eta.nanos;
                    }
                }
            }
            i += 1;
        }
        Duration { nanos: sum }
    }

    /// Moves the cursor by `delta`, no further than to the first or the last
    /// task. Without tasks there is no cursor.
    pub fn move_selection(&mut self, delta: i32)
        ensures
            *final(self) == (TuiState {
                selected: moved(old(self).cursor(), delta as int, old(self).task_order@.len()),
                ..*old(self)
            }),
    {
        if self.task_order.len() == 0 {
            self.selected = None;
            return;
        }
        let last: usize = self.task_order.len() - 1;
        let current: usize = match self.selected {
            Some(s) => s,
            None => 0,
        };
        let next: i128 = current as i128 + delta as i128;
        let next: usize = if next < 0 {
            0
        } else if next > last as i128 {
            last
        } else {
            next as usize
        };
        self.selected = Some(next);
    }

    /// The position of the cursor, the first one when there is none.
    pub open spec fn cursor(&self) -> int {
        match self.selected {
            Some(s) => s as int,
            None => 0,
        }
    }

    /// The name of the task under the cursor.
    pub open spec fn selection(&self) -> Option<Seq<char>> {
        match self.selected {
            Some(i) if i < self.task_order@.len() => Some(self.task_order@[i as int]@),
            _ => None,
        }
    }

    /// The name of the task under the cursor, if any.
    pub fn selected_task(&self) -> (r: Option<&str>)
        ensures
            match r {
                Some(name) => self.selection() == Some(name@),
                None => self.selection() is None,
            },
    {
        match self.selected {
            Some(i) => if i < self.task_order.len() {
                Some(self.task_order[i].as_str())
            } else {
                None
            },
            None => None,
        }
    }

    /// Only the record of the task under the cursor differs, and it is now
    /// `info`; nothing differs when there is no such task.
    pub open spec fn with_selected(&self, info: spec_fn(TaskInfo) -> TaskInfo, next: &TuiState) -> bool {
        match self.selection() {
            Some(k) if self.tasks@.contains_key(k) => {
                &&& *next == (TuiState { tasks: next.tasks, ..*self })
                &&& next.tasks@ == self.tasks@.insert(k, info(self.tasks@[k]))
            },
            _ => *next == *self,
        }
    }

    /// The record of the task under the cursor.
    fn selected_task_info_mut(&mut self) -> (r: Option<&mut TaskInfo>)
        requires
            old(self).wf(),
        ensures
            match r {
                Some(info) => {
                    &&& old(self).selection() is Some
                    &&& old(self).tasks@.contains_key(old(self).selection()->0)
                    &&& *info == old(self).tasks@[old(self).selection()->0]
                    &&& *final(self) == (TuiState { tasks: final(self).tasks, ..*old(self) })
                    &&& final(self).wf()
                    &&& final(self).tasks@ == old(self).tasks@.insert(
                        old(self).selection()->0,
                        *final(info),
                    )
                },
                None => {
                    &&& *final(self) == *old(self)
                    &&& old(self).selection() is Some ==> !old(self).tasks@.contains_key(
                        old(self).selection()->0,
                    )
                },
            },
    {
        let name = match self.selected_task() {
            Some(n) => n.to_owned(),
            None => {
                return None;
            },
        };
        self.tasks.get_mut(name.as_str())
    }

    /// Drops the log of the task under the cursor; its view follows the last
    /// line again.
    pub fn clear_selected_logs(&mut self)
        requires
            old(self).wf(),
        ensures
            final(self).wf(),
            *final(self) == (TuiState { tasks: final(self).tasks, ..*old(self) }),
            match old(self).selection() {
                Some(k) if old(self).tasks@.contains_key(k) => {
                    let b = old(self).tasks@[k];
                    let a = final(self).tasks@[k];
                    &&& final(self).tasks@ == old(self).tasks@.insert(k, a)
                    &&& a.same_but_view(&b)
                    &&& a.logs@.len() == 0
                    &&& a.scrollback == 0
                    &&& a.follow_tail
                },
                _ => *final(self) == *old(self),
            },
            old(self).views_ok() ==> final(self).views_ok(),
    {
        if let Some(info) = self.selected_task_info_mut() {
            info.logs.clear();
            info.scrollback = 0;
            info.follow_tail = true;
        }
    }

    /// Scrolls the log of the task under the cursor up by `lines`, no further
    /// than to its first line. The view no longer follows the last line unless
    /// that is still in view. By no lines, nothing changes.
    pub fn scroll_logs_up(&mut self, lines: usize)
        requires
            old(self).wf(),
        ensures
            final(self).wf(),
            old(self).with_selected(
                |b: TaskInfo| b.scrolled_up(lines as nat),
                final(self),
            ),
            old(self).views_ok() ==> final(self).views_ok(),
    {
        if lines == 0 {
            proof {
                if let Some(k) = self.selection() {
                    if self.tasks@.contains_key(k) {
                        assert(self.tasks@ =~= self.tasks@.insert(k, self.tasks@[k]));
                    }
                }
            }
            return;
        }
        if let Some(info) = self.selected_task_info_mut() {
            let top: usize = info.logs.len().saturating_sub(1);
            let to: usize = info.scrollback.saturating_add(lines);
            let to: usize = if to < top { to } else { top };
            info.scrollback = to;
            info.follow_tail = to == 0;
        }
    }

    /// Scrolls the log of the task under the cursor down by `lines`, no further
    /// than to its last line, which the view then follows.
    pub fn scroll_logs_down(&mut self, lines: usize)
        requires
            old(self).wf(),
        ensures
            final(self).wf(),
            old(self).with_selected(
                |b: TaskInfo| b.scrolled_down(lines as nat),
                final(self),
            ),
            old(self).views_ok() ==> final(self).views_ok(),
    {
        if let Some(info) = self.selected_task_info_mut() {
            info.scrollback = info.scrollback.saturating_sub(lines);
            if info.scrollback == 0 {
                info.follow_tail = true;
            }
        }
    }

    /// Scrolls the log of the task under the cursor up to its first line.
    pub fn scroll_logs_home(&mut self)
        requires
            old(self).wf(),
        ensures
            final(self).wf(),
            old(self).with_selected(
                |b: TaskInfo| b.scrolled_home(),
                final(self),
            ),
            old(self).views_ok() ==> final(self).views_ok(),
    {
        if let Some(info) = self.selected_task_info_mut() {
            info.scrollback = info.logs.len().saturating_sub(1);
            info.follow_tail = false;
        }
    }

    /// Scrolls the log of the task under the cursor down to its last line,
    /// which the view then follows.
    pub fn scroll_logs_end(&mut self)
        requires
            old(self).wf(),
        ensures
            final(self).wf(),
            old(self).with_selected(
                |b: TaskInfo| b.scrolled_end(),
                final(self),
            ),
            old(self).views_ok() ==> final(self).views_ok(),
    {
        if let Some(info) = self.selected_task_info_mut() {
            info.scrollback = 0;
            info.follow_tail = true;
        }
    }

    /// Gives each task of the order a record.
    fn seed_tasks(&mut self)
        requires
            old(self).tasks.wf(),
            old(self).etas.wf(),
        ensures
            final(self).wf(),
            *final(self) == (TuiState { tasks: final(self).tasks, ..*old(self) }),
            forall|k: Seq<char>|
                #[trigger] final(self).tasks@.contains_key(k) <==> old(self).tasks@.contains_key(k) || texts(
                    old(self).task_order@,
                ).contains(k),
            forall|k: Seq<char>|
                #[trigger] final(self).tasks@.contains_key(k) ==> record_before(
                    old(self).tasks@,
                    k,
                    final(self).tasks@[k],
                ),
    {
        let mut i: usize = 0;
        while i < self.task_order.len()
            invariant
                *self == (TuiState { tasks: self.tasks, ..*old(self) }),
                self.tasks.wf(),
                self.etas.wf(),
                i <= self.task_order.len(),
                forall|k: Seq<char>|
                    #[trigger] self.tasks@.contains_key(k) <==> old(self).tasks@.contains_key(k) || texts(
                        self.task_order@,
                    ).take(i as int).contains(k),
                forall|k: Seq<char>|
                    #[trigger] self.tasks@.contains_key(k) ==> record_before(
                        old(self).tasks@,
                        k,
                        self.tasks@[k],
                    ),
            decreases self.task_order.len() - i,
        {
            let ghost all = texts(self.task_order@);
            let name = self.task_order[i].clone();
            if !self.tasks.contains_key(name.as_str()) {
                self.tasks.insert(name.as_str(), TaskInfo::default());
            }
            proof {
                assert(all.take(i + 1) =~= all.take(i as int).push(name@));
                assert forall|k: Seq<char>| #[trigger]
                    all.take(i + 1).contains(k) <==> all.take(i as int).contains(k) || k == name@ by {
                    if all.take(i as int).contains(k) {
                        let j = choose|j: int| 0 <= j < i && all.take(i as int)[j] == k;
                        assert(all.take(i + 1)[j] == k);
                    }
                    assert(all.take(i + 1)[i as int] == name@);
                }
            }
            i += 1;
        }
        assert(texts(self.task_order@).take(i as int) =~= texts(self.task_order@));
        assert forall|j: int| 0 <= j < self.task_order@.len() implies self.tasks@.contains_key(
            #[trigger] self.task_order@[j]@,
        ) by {
            assert(texts(self.task_order@)[j] == self.task_order@[j]@);
        }
    }

    /// Folds one event into the state.
    pub fn apply(&mut self, event: ProgressEvent)
        requires
            old(self).wf(),
            old(self).has_room(event),
        ensures
            final(self).wf(),
            old(self).follows(event, final(self)),
            old(self).views_ok() ==> final(self).views_ok(),
    {
        match event {
            ProgressEvent::RunStarted { target, layers } => {
                self.target = Some(target);
                self.task_order = flatten(&layers);
                self.layers = layers;
                self.seed_tasks();
                if self.task_order.len() > 0 && self.selected.is_none() {
                    self.selected = Some(0);
                }
            },
            ProgressEvent::TaskQueued { task } => {
                let info = self.tasks.get_or_insert(task.as_str(), TaskInfo::default());
                let ghost b = *info;
                info.state = TaskState::Queued;
                assert(record_before(old(self).tasks@, task@, b));
                if !lists(&self.task_order, task.as_str()) {
                    self.task_order.push(task);
                }
            },
            ProgressEvent::TaskStarted { task, mode } => {
                let info = self.tasks.get_or_insert(task.as_str(), TaskInfo::default());
                let ghost b = *info;
                info.state = TaskState::Running;
                assert(record_before(old(self).tasks@, task@, b));
                self.running_count = self.running_count + 1;
            },
            ProgressEvent::TaskPhase { task, phase, elapsed } => {
                let info = self.tasks.get_or_insert(task.as_str(), TaskInfo::default());
                let ghost b = *info;
                info.current_phase = Some(phase);
                info.phase_count = info.phase_count + 1;
                info.duration = Duration { nanos: info.duration.nanos + elapsed.nanos };
                assert(record_before(old(self).tasks@, task@, b));
            },
            ProgressEvent::LogLine { task, stream, line } => {
                let info = self.tasks.get_or_insert(task.as_str(), TaskInfo::default());
                let ghost b = *info;
                if info.logs.len() >= LOG_CAPACITY {
                    info.logs.pop_front();
                    info.scrollback = info.scrollback.saturating_sub(1);
                }
                info.logs.push_back(LogLineRecord { stream, line });
                if info.follow_tail {
                    info.scrollback = 0;
                }
                assert(record_before(old(self).tasks@, task@, b));
            },
            ProgressEvent::TaskFinished { task, status, duration, error, cache_reasons } => {
                let info = self.tasks.get_or_insert(task.as_str(), TaskInfo::default());
                let ghost b = *info;
                let was_running = info.state == TaskState::Running;
                info.duration = duration;
                info.error = error;
                info.cache_reasons = cache_reasons;
                info.current_phase = None;
                info.state = match status {
                    TaskStatus::Executed => TaskState::Done,
                    TaskStatus::CacheHit => TaskState::Cached,
                    TaskStatus::DryRun => TaskState::DryRun,
                    TaskStatus::Failed => TaskState::Failed,
                    TaskStatus::Skipped => TaskState::Skipped,
                };
                assert(record_before(old(self).tasks@, task@, b));
                if was_running {
                    self.running_count = self.running_count.saturating_sub(1);
                }
                match status {
                    TaskStatus::Executed => {
                        self.done_count = self.done_count + 1;
                    },
                    TaskStatus::CacheHit => {
                        self.cached_count = self.cached_count + 1;
                    },
                    TaskStatus::Failed => {
                        self.failed_count = self.failed_count + 1;
                    },
                    _ => {},
                }
            },
            ProgressEvent::RunFinished => {
                self.run_finished = true;
            },
        }
    }

    /// Asks for another run, once the run has finished. Ignored before.
    pub fn request_rerun(&mut self, task: String, force_all: bool)
        ensures
            *final(self) == (if old(self).run_finished {
                TuiState { pending_rerun: Some(RerunRequest { task, force_all }), ..*old(self) }
            } else {
                *old(self)
            }),
    {
        if self.run_finished {
            self.pending_rerun = Some(RerunRequest { task, force_all });
        }
    }
}

/// What a finished task turns into.
pub open spec fn ended(status: TaskStatus) -> TaskState {
    match status {
        TaskStatus::Executed => TaskState::Done,
        TaskStatus::CacheHit => TaskState::Cached,
        TaskStatus::DryRun => TaskState::DryRun,
        TaskStatus::Failed => TaskState::Failed,
        TaskStatus::Skipped => TaskState::Skipped,
    }
}

/// The cursor at `current` moved by `delta` over a list of `len` tasks.
pub open spec fn moved(current: int, delta: int, len: nat) -> Option<usize> {
    if len == 0 {
        None
    } else if current + delta < 0 {
        Some(0)
    } else if current + delta >= len {
        Some((len - 1) as usize)
    } else {
        Some((current + delta) as usize)
    }
}

/// The tasks that are running.
pub open spec fn running(state: TuiState) -> Set<Seq<char>> {
    state.tasks@.dom().filter(|k: Seq<char>| state.tasks@[k].state == TaskState::Running)
}

/// How many of the events tell that a task ended so.
pub open spec fn endings(events: Seq<ProgressEvent>, status: TaskStatus) -> int
    decreases events.len(),
{
    if events.len() == 0 {
        0
    } else {
        endings(events.drop_last(), status) + (if events.last() matches ProgressEvent::TaskFinished {
            status: told,
            ..
        } && told == status {
            1int
        } else {
            0
        })
    }
}

/// The event does not queue or start a task that is running.
pub open spec fn starts_idle(state: TuiState, event: ProgressEvent) -> bool {
    match event {
        ProgressEvent::TaskQueued { task } => !running(state).contains(task@),
        ProgressEvent::TaskStarted { task, mode } => !running(state).contains(task@),
        _ => true,
    }
}

/// Whether the states follow one another by the events, from the beginning on,
/// and no running task is queued or started again.
pub open spec fn is_run(events: Seq<ProgressEvent>, states: Seq<TuiState>) -> bool {
    &&& states.len() == events.len() + 1
    &&& states[0].is_initial()
    &&& forall|i: int|
        0 <= i < events.len() ==> (#[trigger] states[i]).follows(events[i], &states[i + 1])
            && starts_idle(states[i], events[i])
}

/// One event keeps the count of the running tasks right.
proof fn lemma_running(state: TuiState, event: ProgressEvent, next: TuiState)
    requires
        state.follows(event, &next),
        starts_idle(state, event),
        running(state).finite(),
        running(state).len() == state.running_count,
    ensures
        running(next).finite(),
        running(next).len() == next.running_count,
{
    match event {
        ProgressEvent::RunStarted { target, layers } => {
            assert forall|k: Seq<char>| running(next).contains(k) <==> running(state).contains(k) by {
                assert(next.tasks@.contains_key(k) ==> record_before(state.tasks@, k, next.tasks@[k]));
                assert(state.tasks@.contains_key(k) ==> next.tasks@.contains_key(k));
            }
            assert(running(next) =~= running(state));
        },
        ProgressEvent::TaskQueued { task } => {
            assert(running(next) =~= running(state));
        },
        ProgressEvent::TaskStarted { task, mode } => {
            assert(running(next) =~= running(state).insert(task@));
        },
        ProgressEvent::TaskPhase { task, phase, elapsed } => {
            assert(running(next) =~= running(state));
        },
        ProgressEvent::LogLine { task, stream, line } => {
            assert(running(next) =~= running(state));
        },
        ProgressEvent::TaskFinished { task, status, duration, error, cache_reasons } => {
            assert(running(next) =~= running(state).remove(task@));
            if running(state).contains(task@) {
                assert(running(state).len() > 0);
            }
        },
        ProgressEvent::RunFinished => {},
    }
}

/// Over a whole run the counters are right: that of the running tasks is the
/// number of tasks that are running, and the three others are the numbers of
/// tasks that were told to have been executed, found cached, and failed.
pub proof fn law_counters_are_right(events: Seq<ProgressEvent>, states: Seq<TuiState>)
    requires
        is_run(events, states),
    ensures
        running(states.last()).finite(),
        states.last().running_count == running(states.last()).len(),
        states.last().done_count == endings(events, TaskStatus::Executed),
        states.last().cached_count == endings(events, TaskStatus::CacheHit),
        states.last().failed_count == endings(events, TaskStatus::Failed),
    decreases events.len(),
{
    if events.len() == 0 {
        assert(running(states[0]) =~= Set::<Seq<char>>::empty());
    } else {
        let n = events.len() - 1;
        let before = states.drop_last();
        assert forall|i: int| 0 <= i < n implies (#[trigger] before[i]).follows(
            events.drop_last()[i],
            &before[i + 1],
        ) && starts_idle(before[i], events.drop_last()[i]) by {
            assert(states[i].follows(events[i], &states[i + 1]));
        }
        law_counters_are_right(events.drop_last(), before);
        assert(states[n].follows(events[n], &states[n + 1]));
        lemma_running(states[n], events[n], states[n + 1]);
    }
}

/// Another run can be asked for once the run has finished, and not before.
pub proof fn law_rerun_waits_for_the_end(state: &mut TuiState, task: String, force_all: bool)
    requires
        call_ensures(TuiState::request_rerun, (state, task, force_all), ()),
    ensures
        !old(state).run_finished ==> final(state).pending_rerun == old(state).pending_rerun,
        old(state).run_finished ==> (final(state).pending_rerun matches Some(request) && {
            &&& request.task@ == task@
            &&& request.force_all == force_all
        }),
        final(state).tasks == old(state).tasks,
        final(state).run_finished == old(state).run_finished,
        final(state).selected == old(state).selected,
{
}

/// The task that an event is about.
pub open spec fn subject(event: ProgressEvent) -> Option<Seq<char>> {
    match event {
        ProgressEvent::RunStarted { target, layers } => None,
        ProgressEvent::TaskQueued { task } => Some(task@),
        ProgressEvent::TaskStarted { task, mode } => Some(task@),
        ProgressEvent::TaskPhase { task, phase, elapsed } => Some(task@),
        ProgressEvent::LogLine { task, stream, line } => Some(task@),
        ProgressEvent::TaskFinished { task, status, duration, error, cache_reasons } => Some(task@),
        ProgressEvent::RunFinished => None,
    }
}

/// What an event tells of one task is recorded for that task alone: every other record stays,
/// and so do the cursor, the target, the layers, the expected durations and what the user has
/// asked for. Only the end of the run marks it finished, and no event takes that mark away.
pub proof fn law_events_touch_their_task(state: TuiState, event: ProgressEvent, next: TuiState, k: Seq<char>)
    requires
        state.follows(event, &next),
    ensures
        subject(event) != Some(k) && state.tasks@.contains_key(k) ==> next.tasks@.contains_key(k)
            && next.tasks@[k] == state.tasks@[k],
        subject(event) is Some && subject(event) != Some(k) && next.tasks@.contains_key(k)
            ==> state.tasks@.contains_key(k),
        subject(event) == Some(k) ==> next.tasks@.contains_key(k),
        subject(event) is Some ==> next.target == state.target && next.layers == state.layers
            && next.selected == state.selected,
        next.etas == state.etas,
        next.cancel == state.cancel,
        next.pending_rerun == state.pending_rerun,
        next.run_finished <==> state.run_finished || event is RunFinished,
        texts(state.task_order@).contains(k) && !(event is RunStarted) ==> texts(next.task_order@).contains(k),
        !(event is RunStarted) ==> state.task_order@.is_prefix_of(next.task_order@),
        !(event is RunStarted) && !(event is TaskQueued) ==> next.task_order@ == state.task_order@,
        event is RunFinished ==> next == (TuiState { run_finished: true, ..state }),
{
    if let ProgressEvent::TaskQueued { task } = event {
        if texts(state.task_order@).contains(k) && !texts(state.task_order@).contains(task@) {
            let i = choose|i: int| 0 <= i < state.task_order@.len() && texts(state.task_order@)[i] == k;
            assert(texts(next.task_order@)[i] == k);
        }
    }
    if event is RunStarted && state.tasks@.contains_key(k) {
        assert(next.tasks@.contains_key(k));
    }
}

/// A task that is queued, starts or enters a phase is in that state, and the rest of its
/// record is kept. One that was not known is shown as if nothing had happened to it before.
pub proof fn law_progress_is_recorded(state: TuiState, event: ProgressEvent, next: TuiState, k: Seq<char>)
    requires
        state.follows(event, &next),
        subject(event) == Some(k),
        !(event is LogLine),
        !(event is TaskFinished),
    ensures
        event is TaskQueued ==> next.tasks@[k].state == TaskState::Queued,
        event is TaskQueued ==> texts(next.task_order@).contains(k),
        event is TaskQueued ==> next.running_count == state.running_count,
        event is TaskStarted ==> next.tasks@[k].state == TaskState::Running,
        event is TaskStarted ==> next.running_count == state.running_count + 1,
        event is TaskPhase ==> next.running_count == state.running_count,
        next.done_count == state.done_count,
        next.cached_count == state.cached_count,
        next.failed_count == state.failed_count,
        state.tasks@.contains_key(k) ==> {
            let (b, a) = (state.tasks@[k], next.tasks@[k]);
            &&& a.logs == b.logs
            &&& a.scrollback == b.scrollback
            &&& a.follow_tail == b.follow_tail
            &&& a.error == b.error
            &&& a.cache_reasons == b.cache_reasons
            &&& !(event is TaskPhase) ==> a.current_phase == b.current_phase && a.phase_count
                == b.phase_count && a.duration == b.duration
            &&& event matches ProgressEvent::TaskPhase { task, phase, elapsed } ==> {
                &&& a.state == b.state
                &&& a.current_phase == Some(phase)
                &&& b.phase_count < u32::MAX ==> a.phase_count == b.phase_count + 1
                &&& b.duration.nanos + elapsed.nanos <= u128::MAX ==> a.duration.nanos
                    == b.duration.nanos + elapsed.nanos
            }
        },
        !state.tasks@.contains_key(k) ==> {
            let a = next.tasks@[k];
            &&& a.logs@.len() == 0
            &&& a.follow_tail
            &&& a.error is None
            &&& event matches ProgressEvent::TaskPhase { task, phase, elapsed } ==> {
                &&& a.state == TaskState::Queued
                &&& a.current_phase == Some(phase)
                &&& a.phase_count == 1
                &&& a.duration.nanos == elapsed.nanos
            }
        },
{
    if let ProgressEvent::TaskQueued { task } = event {
        if !texts(state.task_order@).contains(task@) {
            assert(texts(next.task_order@)[state.task_order@.len() as int] == k);
        }
    }
}

/// A task that ended is shown as it ended: executed as done, taken from the cache as cached,
/// and so on, with the duration, the error and the reasons that were told. It is in no phase
/// any more, its log stays, and it is counted once, under how it ended.
pub proof fn law_end_of_a_task_is_recorded(
    state: TuiState,
    task: String,
    status: TaskStatus,
    duration: Duration,
    error: Option<String>,
    cache_reasons: Vec<String>,
    next: TuiState,
)
    requires
        state.follows(ProgressEvent::TaskFinished { task, status, duration, error, cache_reasons }, &next),
    ensures
        ({
            let a = next.tasks@[task@];
            &&& a.state == TaskState::Done <==> status == TaskStatus::Executed
            &&& a.state == TaskState::Cached <==> status == TaskStatus::CacheHit
            &&& a.state == TaskState::DryRun <==> status == TaskStatus::DryRun
            &&& a.state == TaskState::Failed <==> status == TaskStatus::Failed
            &&& a.state == TaskState::Skipped <==> status == TaskStatus::Skipped
            &&& a.current_phase is None
            &&& a.duration == duration
            &&& a.error == error
            &&& a.cache_reasons == cache_reasons
        }),
        state.tasks@.contains_key(task@) ==> {
            let (b, a) = (state.tasks@[task@], next.tasks@[task@]);
            &&& a.logs == b.logs
            &&& a.scrollback == b.scrollback
            &&& a.follow_tail == b.follow_tail
            &&& a.phase_count == b.phase_count
            &&& b.state == TaskState::Running && state.running_count > 0 ==> next.running_count
                == state.running_count - 1
            &&& b.state != TaskState::Running ==> next.running_count == state.running_count
        },
        next.done_count - state.done_count == (if status == TaskStatus::Executed {
            1int
        } else {
            0
        }),
        next.cached_count - state.cached_count == (if status == TaskStatus::CacheHit {
            1int
        } else {
            0
        }),
        next.failed_count - state.failed_count == (if status == TaskStatus::Failed {
            1int
        } else {
            0
        }),
{
}

/// The log of a task holds the latest lines that it wrote, up to 4096 of them, in the order
/// in which it wrote them, each with the stream that it was written to.
pub proof fn law_log_holds_the_latest_lines(
    state: TuiState,
    task: String,
    stream: LogStream,
    line: String,
    next: TuiState,
)
    requires
        state.follows(ProgressEvent::LogLine { task, stream, line }, &next),
        state.tasks@.contains_key(task@),
        state.tasks@[task@].view_ok(),
    ensures
        ({
            let (b, a) = (state.tasks@[task@], next.tasks@[task@]);
            let all = b.logs@.push(LogLineRecord { stream, line });
            &&& all.len() <= 4096 ==> a.logs@ == all
            &&& all.len() > 4096 ==> a.logs@ == all.skip(1) && a.logs@.len() == 4096
            &&& a.logs@.last().stream == stream
            &&& a.logs@.last().line == line
            &&& a.state == b.state
            &&& a.duration == b.duration
            &&& a.error == b.error
            &&& a.follow_tail == b.follow_tail
            &&& a.follow_tail ==> a.scrollback == 0
            &&& !a.follow_tail && all.len() <= 4096 ==> a.scrollback == b.scrollback
            &&& !a.follow_tail && all.len() > 4096 && b.scrollback > 0 ==> a.scrollback == b.scrollback - 1
        }),
        next.running_count == state.running_count,
        next.task_order@ == state.task_order@,
{
    let (b, a) = (state.tasks@[task@], next.tasks@[task@]);
    let all = b.logs@.push(LogLineRecord { stream, line });
    if all.len() > 4096 {
        assert(b.logs@.drop_first().push(LogLineRecord { stream, line }) =~= all.skip(1));
    }
}

/// One layer is listed as it stands, and layers behind others are listed behind them.
pub proof fn law_tasks_are_listed_by_layer(first: Seq<Vec<String>>, layer: Vec<String>, rest: Seq<Vec<String>>)
    ensures
        flattened(seq![layer]) == layer@,
        flattened(first + rest) == flattened(first) + flattened(rest),
        flattened(Seq::empty()).len() == 0,
    decreases rest.len(),
{
    assert(seq![layer].drop_last() =~= Seq::<Vec<String>>::empty());
    assert(flattened(seq![layer].drop_last()) =~= Seq::<String>::empty());
    assert(flattened(seq![layer]) =~= layer@);
    if rest.len() == 0 {
        assert(first + rest =~= first);
        assert(flattened(first) + flattened(rest) =~= flattened(first));
    } else {
        law_tasks_are_listed_by_layer(first, layer, rest.drop_last());
        assert((first + rest).drop_last() =~= first + rest.drop_last());
        assert(flattened(first + rest) =~= flattened(first) + flattened(rest));
    }
}

/// When a run starts, its target and its layers are shown, every task of a layer has a
/// record, those that had none stand as queued, and the cursor is on the first task unless it
/// was put somewhere before.
pub proof fn law_start_of_a_run(
    state: TuiState,
    target: String,
    layers: Vec<Vec<String>>,
    next: TuiState,
    i: int,
    j: int,
)
    requires
        state.follows(ProgressEvent::RunStarted { target, layers }, &next),
        0 <= i < layers@.len(),
        0 <= j < layers@[i]@.len(),
    ensures
        next.target == Some(target),
        next.layers == layers,
        ({
            let k = layers@[i]@[j]@;
            &&& texts(next.task_order@).contains(k)
            &&& next.tasks@.contains_key(k)
            &&& state.tasks@.contains_key(k) ==> next.tasks@[k] == state.tasks@[k]
            &&& !state.tasks@.contains_key(k) ==> next.tasks@[k].state == TaskState::Queued
                && next.tasks@[k].logs@.len() == 0 && next.tasks@[k].follow_tail
                && next.tasks@[k].error is None
        }),
        state.selected is None ==> next.selected == Some(0usize),
        state.selected is Some ==> next.selected == state.selected,
        next.task_order@ == flattened(layers@),
        next.running_count == state.running_count,
        next.done_count == state.done_count,
        next.cached_count == state.cached_count,
        next.failed_count == state.failed_count,
{
    lemma_flattened_has(layers@, i, j);
    let n = choose|n: int|
        0 <= n < flattened(layers@).len() && (#[trigger] flattened(layers@)[n]) == layers@[i]@[j];
    assert(texts(next.task_order@)[n] == layers@[i]@[j]@);
    assert(texts(flattened(layers@)).contains(layers@[i]@[j]@));
    assert(next.tasks@.contains_key(layers@[i]@[j]@));
}

/// Every task of a layer is listed.
proof fn lemma_flattened_has(layers: Seq<Vec<String>>, i: int, j: int)
    requires
        0 <= i < layers.len(),
        0 <= j < layers[i]@.len(),
    ensures
        exists|n: int| 0 <= n < flattened(layers).len() && (#[trigger] flattened(layers)[n]) == layers[i]@[j],
    decreases layers.len(),
{
    let front = flattened(layers.drop_last());
    if i == layers.len() - 1 {
        assert(flattened(layers)[front.len() + j] == layers[i]@[j]);
    } else {
        lemma_flattened_has(layers.drop_last(), i, j);
        let n = choose|n: int| 0 <= n < front.len() && (#[trigger] front[n]) == layers.drop_last()[i]@[j];
        assert(flattened(layers)[n] == layers[i]@[j]);
    }
}

/// A view is scrolled by as many lines as asked for, no further than to the first and to the
/// last line of the log; it follows the log exactly when it shows the last line after having
/// been scrolled. The log itself stays.
pub proof fn law_scrolling_stays_in_the_log(info: TaskInfo, lines: nat)
    requires
        info.view_ok(),
        lines > 0,
    ensures
        ({
            let up = info.scrolled_up(lines);
            let down = info.scrolled_down(lines);
            &&& up.logs == info.logs && down.logs == info.logs
            &&& up.same_but_view(&info) && down.same_but_view(&info)
            &&& info.logs@.len() > info.scrollback + lines ==> up.scrollback == info.scrollback + lines
            &&& 0 < info.logs@.len() <= info.scrollback + lines ==> up.scrollback == info.logs@.len() - 1
            &&& info.logs@.len() == 0 ==> up.scrollback == 0
            &&& lines <= info.scrollback ==> down.scrollback == info.scrollback - lines
            &&& lines >= info.scrollback ==> down.scrollback == 0
            &&& up.follow_tail <==> up.scrollback == 0
            &&& down.follow_tail <==> down.scrollback == 0
        }),
        info.scrolled_up(0) == info,
        ({
            let home = info.scrolled_home();
            let end = info.scrolled_end();
            &&& home.logs == info.logs && end.logs == info.logs
            &&& home.same_but_view(&info) && end.same_but_view(&info)
            &&& info.logs@.len() > 0 ==> home.scrollback == info.logs@.len() - 1
            &&& info.logs@.len() == 0 ==> home.scrollback == 0
            &&& !home.follow_tail
            &&& end.scrollback == 0
            &&& end.follow_tail
        }),
{
}

/// The cursor moves by as many tasks as asked for and stays on the list: it stops at the
/// first and at the last task. Without tasks there is none.
pub proof fn law_cursor_stays_on_the_list(current: int, delta: int, len: nat)
    requires
        0 <= current,
        len <= usize::MAX,
    ensures
        moved(current, delta, 0) is None,
        len > 0 ==> (moved(current, delta, len) matches Some(to) && {
            &&& to < len
            &&& 0 <= current + delta < len ==> to == current + delta
            &&& current + delta < 0 ==> to == 0
            &&& current + delta >= len ==> to == len - 1
        }),
{
}

/// The cursor shows the task that stands at its place in the list.
pub proof fn law_cursor_names_its_task(state: TuiState, i: usize)
    requires
        i < state.task_order@.len(),
        state.selected == Some(i),
    ensures
        state.selection() == Some(state.task_order@[i as int]@),
        state.cursor() == i,
{
}

/// What is left to run is counted task by task: a task that waits or runs counts with its
/// expected duration, one without an expected duration or one that has ended does not count.
pub proof fn law_remaining_time_is_of_open_tasks(state: TuiState, n: nat)
    requires
        n < state.task_order@.len(),
        state.tasks@.contains_key(state.task_order@[n as int]@),
    ensures
        state.eta_sum(0) == 0,
        ({
            let k = state.task_order@[n as int]@;
            let open = match state.tasks@[k].state {
                TaskState::Queued => true,
                TaskState::Running => true,
                TaskState::Cached => false,
                TaskState::Done => false,
                TaskState::Failed => false,
                TaskState::DryRun => false,
                TaskState::Skipped => false,
            };
            &&& open && state.etas@.contains_key(k) ==> state.eta_sum(n + 1) == state.eta_sum(n)
                + state.etas@[k].nanos
            &&& !open || !state.etas@.contains_key(k) ==> state.eta_sum(n + 1) == state.eta_sum(n)
        }),
{
}

/// The time left is what the tasks of the list still need, all of them.
pub proof fn law_time_left_counts_every_task(state: TuiState, r: Duration)
    requires
        call_ensures(TuiState::remaining_eta, (&state,), r),
    ensures
        r.nanos == state.eta_sum(state.task_order@.len()),
{
}

/// A new dashboard knows nothing: no target, no tasks, no cursor, nothing counted, nothing
/// cancelled. The expected durations are those that it was given.
pub proof fn law_dashboard_starts_empty(etas: TextMap<Duration>, r: TuiState, plain: TuiState)
    requires
        call_ensures(TuiState::with_etas, (etas,), r),
        call_ensures(TuiState::new, (), plain),
    ensures
        r.target is None && r.selected is None && r.pending_rerun is None,
        r.task_order@.len() == 0 && r.layers@.len() == 0,
        forall|k: Seq<char>| !(#[trigger] r.tasks@.contains_key(k)),
        !r.run_finished,
        r.running_count == 0 && r.done_count == 0 && r.cached_count == 0 && r.failed_count == 0,
        r.cancel == CancelState::Idle,
        r.etas == etas,
        plain.target is None && plain.selected is None && plain.task_order@.len() == 0,
        plain.cancel == CancelState::Idle && !plain.run_finished,
        forall|k: Seq<char>| !(#[trigger] plain.etas@.contains_key(k)),
{
}

/// Moving the cursor over the tasks changes nothing else.
pub proof fn law_moving_the_cursor(state: &mut TuiState, delta: i32)
    requires
        call_ensures(TuiState::move_selection, (state, delta), ()),
        old(state).task_order@.len() <= usize::MAX,
    ensures
        *final(state) == (TuiState { selected: final(state).selected, ..*old(state) }),
        old(state).task_order@.len() == 0 ==> final(state).selected is None,
        old(state).task_order@.len() > 0 ==> (final(state).selected matches Some(to) && {
            let from = match old(state).selected {
                Some(at) => at as int,
                None => 0int,
            };
            &&& to < old(state).task_order@.len()
            &&& 0 <= from + delta < old(state).task_order@.len() ==> to == from + delta
            &&& from + delta < 0 ==> to == 0
            &&& from + delta >= old(state).task_order@.len() ==> to == old(state).task_order@.len() - 1
        }),
{
}

/// Clearing the log of the task under the cursor leaves every other record, and all of its own
/// but the lines and the view of them.
pub proof fn law_clearing_a_log(state: &mut TuiState, k: Seq<char>)
    requires
        call_ensures(TuiState::clear_selected_logs, (state,), ()),
        old(state).tasks@.contains_key(k),
    ensures
        final(state).tasks@.contains_key(k),
        old(state).selection() != Some(k) ==> final(state).tasks@[k] == old(state).tasks@[k],
        old(state).selection() == Some(k) ==> {
            let (b, a) = (old(state).tasks@[k], final(state).tasks@[k]);
            &&& a.logs@.len() == 0
            &&& a.scrollback == 0
            &&& a.follow_tail
            &&& a.state == b.state
            &&& a.duration == b.duration
            &&& a.error == b.error
            &&& a.cache_reasons == b.cache_reasons
        },
        final(state).selected == old(state).selected,
        final(state).task_order == old(state).task_order,
{
}

/// Scrolling moves the view of the task under the cursor, up or down as asked for, and no
/// other.
pub proof fn law_scrolling_the_selected_log(
    up: &mut TuiState,
    down: &mut TuiState,
    home: &mut TuiState,
    end: &mut TuiState,
    lines: usize,
    k: Seq<char>,
)
    requires
        call_ensures(TuiState::scroll_logs_up, (up, lines), ()),
        call_ensures(TuiState::scroll_logs_down, (down, lines), ()),
        call_ensures(TuiState::scroll_logs_home, (home,), ()),
        call_ensures(TuiState::scroll_logs_end, (end,), ()),
        *old(up) == *old(down),
        *old(up) == *old(home),
        *old(up) == *old(end),
        old(up).tasks@.contains_key(k),
        old(up).tasks@[k].view_ok(),
        lines > 0,
    ensures
        old(up).selection() != Some(k) ==> {
            &&& final(up).tasks@[k] == old(up).tasks@[k]
            &&& final(down).tasks@[k] == old(up).tasks@[k]
            &&& final(home).tasks@[k] == old(up).tasks@[k]
            &&& final(end).tasks@[k] == old(up).tasks@[k]
        },
        old(up).selection() == Some(k) ==> {
            let b = old(up).tasks@[k];
            &&& final(up).tasks@[k].scrollback >= b.scrollback
            &&& final(up).tasks@[k].scrollback <= b.scrollback + lines
            &&& b.scrollback + lines < b.logs@.len() ==> final(up).tasks@[k].scrollback == b.scrollback + lines
            &&& final(down).tasks@[k].scrollback <= b.scrollback
            &&& b.scrollback >= lines ==> final(down).tasks@[k].scrollback == b.scrollback - lines
            &&& b.logs@.len() > 0 ==> final(home).tasks@[k].scrollback == b.logs@.len() - 1
            &&& final(end).tasks@[k].scrollback == 0
            &&& final(end).tasks@[k].follow_tail
            &&& !final(home).tasks@[k].follow_tail
        },
        final(up).selected == old(up).selected,
        final(down).selected == old(up).selected,
        final(home).selected == old(up).selected,
        final(end).selected == old(up).selected,
{
}

/// What is told of a run is folded into the state as the laws of its events say, and the task
/// under the cursor is told by its name.
pub proof fn law_events_are_folded_in(state: &mut TuiState, event: ProgressEvent, name: Option<&str>)
    requires
        call_ensures(TuiState::apply, (state, event), ()),
        call_ensures(TuiState::selected_task, (old(state),), name),
    ensures
        old(state).follows(event, final(state)),
        final(state).wf(),
        (name matches Some(told) ==> old(state).selected matches Some(i) && i < old(state).task_order@.len()
            && told@ == old(state).task_order@[i as int]@),
        name is None ==> (old(state).selected matches Some(i) ==> i >= old(state).task_order@.len()),
{
}

} // verus!
