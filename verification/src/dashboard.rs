//! The dashboard: what keys do to it, and how a run is started from it.

use vstd::prelude::*;
use crate::cancel::{signalled, CancelLevel, CancellationToken};
use crate::event::{ProgressEvent, TaskMode};
use crate::executor::{RunOptions, RunSummary};
use crate::graph::{is_runnable, needed, required_tasks};
use crate::keys::{key_action, map_key, map_mouse_to_log_scroll, Action, KeyEvent, MouseEventKind};
use crate::launcher::{ParsedCommand, RunOutcome};
use crate::model::{BroskiFile, TaskSpec};
use crate::state::{moved, CancelState, RerunRequest, TaskInfo, TuiState};
use crate::store::{ask_latest, may_tell, ArtifactStore};
use crate::text::{copy_all, texts, trim, trimmed};
use crate::text_map::TextMap;
use crate::time::Duration;

verus! {

/// How long after a first interrupt a second one insists: two seconds, in
/// nanoseconds.
pub const CANCEL_WINDOW_NANOS: u128 = 2_000_000_000;

/// The time from `earlier` to `now`, none when it lies ahead.
pub open spec fn elapsed(now: Duration, earlier: Duration) -> int {
    if now.nanos >= earlier.nanos {
        now.nanos - earlier.nanos
    } else {
        0
    }
}

/// What an interrupt leads to, and whether it ends the dashboard. The first asks
/// the run to stop; one within the window after it insists; one after the window
/// counts as a first.
pub open spec fn interrupted(
    current: CancelState,
    last_press: Option<Duration>,
    now: Duration,
    window: Duration,
) -> (CancelState, bool) {
    match current {
        CancelState::Idle => (CancelState::Soft, false),
        CancelState::Soft => if last_press matches Some(t) && elapsed(now, t) <= window.nanos {
            (CancelState::Hard, true)
        } else {
            (CancelState::Soft, false)
        },
        CancelState::Hard => (CancelState::Hard, true),
    }
}

/// What an interrupt leads to, and whether it ends the dashboard. Points in time
/// are counted from any fixed one.
pub fn next_interrupt_state(
    current: CancelState,
    last_press: Option<Duration>,
    now: Duration,
    window: Duration,
) -> (r: (CancelState, bool))
    ensures
        r == interrupted(current, last_press, now, window),
{
    match current {
        CancelState::Idle => (CancelState::Soft, false),
        CancelState::Soft => {
            let within = match last_press {
                Some(t) => now.since(t).nanos <= window.nanos,
                None => false,
            };
            if within {
                (CancelState::Hard, true)
            } else {
                (CancelState::Soft, false)
            }
        },
        CancelState::Hard => (CancelState::Hard, true),
    }
}

/// A second interrupt within the window insists and leaves, whenever the first
/// one came.
pub proof fn law_second_interrupt_insists(first: Duration, second: Duration, window: Duration)
    requires
        first.nanos <= second.nanos <= first.nanos + window.nanos,
    ensures
        interrupted(
            interrupted(CancelState::Idle, None, first, window).0,
            Some(first),
            second,
            window,
        ) == (CancelState::Hard, true),
{
}

/// An interrupt never makes a cancelled run go on.
pub proof fn law_interrupt_never_resumes(
    current: CancelState,
    last_press: Option<Duration>,
    now: Duration,
    window: Duration,
)
    ensures
        interrupted(current, last_press, now, window).0 != CancelState::Idle,
        current == CancelState::Hard ==> interrupted(current, last_press, now, window).0
            == CancelState::Hard,
{
}

/// What follows from an action.
#[derive(Debug, Clone)]
pub struct ActionResult {
    /// Whether the dashboard is left.
    pub quit: bool,
    /// The processes to be sent a termination signal.
    pub signal: Vec<i32>,
}

/// The state that follows an action at the time `now`.
pub open spec fn acted_on(
    state: TuiState,
    action: Action,
    last_interrupt: Option<Duration>,
    now: Duration,
    next: TuiState,
) -> bool {
    match action {
        Action::Quit => next == state,
        Action::Interrupt => next == (TuiState {
            cancel: interrupted(
                state.cancel,
                last_interrupt,
                now,
                Duration { nanos: CANCEL_WINDOW_NANOS },
            ).0,
            ..state
        }),
        Action::SelectNext => next == (TuiState {
            selected: moved(state.cursor(), 1, state.task_order@.len()),
            ..state
        }),
        Action::SelectPrev => next == (TuiState {
            selected: moved(state.cursor(), -1, state.task_order@.len()),
            ..state
        }),
        Action::SelectFirst => next == (TuiState {
            selected: if state.task_order@.len() == 0 {
                None
            } else {
                Some(0)
            },
            ..state
        }),
        Action::SelectLast => next == (TuiState {
            selected: if state.task_order@.len() == 0 {
                None
            } else {
                Some((state.task_order@.len() - 1) as usize)
            },
            ..state
        }),
        Action::ClearLogs => {
            &&& next == (TuiState { tasks: next.tasks, ..state })
            &&& match state.selection() {
                Some(k) if state.tasks@.contains_key(k) => {
                    let a = next.tasks@[k];
                    &&& next.tasks@ == state.tasks@.insert(k, a)
                    &&& a.same_but_view(&state.tasks@[k])
                    &&& a.logs@.len() == 0
                    &&& a.scrollback == 0
                    &&& a.follow_tail
                },
                _ => next == state,
            }
        },
        Action::LogScrollUp(n) => state.with_selected(
            |b: TaskInfo| b.scrolled_up(n as nat),
            &next,
        ),
        Action::LogScrollDown(n) => state.with_selected(
            |b: TaskInfo| b.scrolled_down(n as nat),
            &next,
        ),
        Action::LogScrollHome => state.with_selected(|b: TaskInfo| b.scrolled_home(), &next),
        Action::LogScrollEnd => state.with_selected(|b: TaskInfo| b.scrolled_end(), &next),
        Action::ForceRerunSelected => match state.selection() {
            Some(name) if state.run_finished => {
                &&& next == (TuiState { pending_rerun: next.pending_rerun, ..state })
                &&& next.pending_rerun matches Some(req) && req.task@ == name && !req.force_all
            },
            _ => next == state,
        },
        Action::ForceRerunAll => match state.target {
            Some(target) if state.run_finished => {
                &&& next == (TuiState { pending_rerun: next.pending_rerun, ..state })
                &&& next.pending_rerun matches Some(req) && req.task@ == target@ && req.force_all
            },
            _ => next == state,
        },
        Action::Redraw => next == state,
        Action::Ignore => next == state,
    }
}

/// Whether the action ends the dashboard.
pub open spec fn ends(
    state: TuiState,
    action: Action,
    last_interrupt: Option<Duration>,
    now: Duration,
) -> bool {
    match action {
        Action::Quit => true,
        Action::Interrupt => interrupted(
            state.cancel,
            last_interrupt,
            now,
            Duration { nanos: CANCEL_WINDOW_NANOS },
        ).1,
        _ => false,
    }
}

/// Carries out an action at the time `now`.
pub fn apply_action(
    state: &mut TuiState,
    action: Action,
    cancellation: &mut CancellationToken,
    last_interrupt: &mut Option<Duration>,
    now: Duration,
) -> (r: ActionResult)
    requires
        old(state).wf(),
    ensures
        final(state).wf(),
        old(state).views_ok() ==> final(state).views_ok(),
        acted_on(*old(state), action, *old(last_interrupt), now, *final(state)),
        r.quit == ends(*old(state), action, *old(last_interrupt), now),
        final(cancellation).running() == old(cancellation).running(),
        final(cancellation).is_set() == (old(cancellation).is_set() || action == Action::Interrupt),
        *final(last_interrupt) == (if action == Action::Interrupt {
            Some(now)
        } else {
            *old(last_interrupt)
        }),
        r.signal@ == (if action == Action::Interrupt && final(state).cancel == CancelState::Hard {
            signalled(old(cancellation).running())
        } else {
            Seq::empty()
        }),
{
    let mut quit = false;
    let mut signal: Vec<i32> = Vec::new();
    match action {
        Action::Quit => {
            quit = true;
        },
        Action::Interrupt => {
            let window = Duration { nanos: CANCEL_WINDOW_NANOS };
            let (next, should_quit) = next_interrupt_state(
                state.cancel,
                *last_interrupt,
                now,
                window,
            );
            state.cancel = next;
            *last_interrupt = Some(now);
            match next {
                CancelState::Soft => {
                    signal = cancellation.cancel(CancelLevel::Soft);
                },
                CancelState::Hard => {
                    signal = cancellation.cancel(CancelLevel::Hard);
                },
                CancelState::Idle => {},
            }
            quit = should_quit;
        },
        Action::SelectNext => {
            state.move_selection(1);
        },
        Action::SelectPrev => {
            state.move_selection(-1);
        },
        Action::SelectFirst => {
            state.selected = if state.task_order.len() == 0 {
                None
            } else {
                Some(0)
            };
        },
        Action::SelectLast => {
            state.selected = if state.task_order.len() == 0 {
                None
            } else {
                Some(state.task_order.len() - 1)
            };
        },
        Action::ClearLogs => {
            state.clear_selected_logs();
        },
        Action::LogScrollUp(n) => {
            state.scroll_logs_up(n);
        },
        Action::LogScrollDown(n) => {
            state.scroll_logs_down(n);
        },
        Action::LogScrollHome => {
            state.scroll_logs_home();
        },
        Action::LogScrollEnd => {
            state.scroll_logs_end();
        },
        Action::ForceRerunSelected => {
            let name = match state.selected_task() {
                Some(name) => Some(name.to_owned()),
                None => None,
            };
            if let Some(name) = name {
                state.request_rerun(name, false);
            }
        },
        Action::ForceRerunAll => {
            let name = match &state.target {
                Some(name) => Some(name.clone()),
                None => None,
            };
            if let Some(name) = name {
                state.request_rerun(name, true);
            }
        },
        Action::Redraw | Action::Ignore => {},
    }
    ActionResult { quit, signal }
}

/// How the dashboard is left.
#[derive(Debug, Clone)]
pub enum LoopDecision {
    /// For good.
    Quit,
    /// To run again.
    Rerun(RerunRequest),
}

/// The dashboard between two events.
#[derive(Debug, Clone)]
pub struct Dashboard {
    pub state: TuiState,
    pub last_interrupt: Option<Duration>,
    /// Whether the screen is out of date.
    pub dirty: bool,
    /// Whether the executor can still tell something.
    pub channel_open: bool,
}

/// What a key leads to: `mid` is the state that follows its action.
pub open spec fn key_leads_to(
    before: Dashboard,
    key: KeyEvent,
    now: Duration,
    mid: TuiState,
    after: Dashboard,
    decision: Option<LoopDecision>,
) -> bool {
    let action = key_action(key);
    &&& acted_on(before.state, action, before.last_interrupt, now, mid)
    &&& if ends(before.state, action, before.last_interrupt, now) {
        decision == Some(LoopDecision::Quit) && after.state == mid
    } else {
        match mid.pending_rerun {
            Some(req) => decision == Some(LoopDecision::Rerun(req)) && after.state == (TuiState {
                pending_rerun: None,
                ..mid
            }),
            None => decision is None && after.state == mid && after.dirty,
        }
    }
}

/// What a key leads to.
pub open spec fn key_handled(
    before: Dashboard,
    key: KeyEvent,
    now: Duration,
    after: Dashboard,
    decision: Option<LoopDecision>,
) -> bool {
    exists|mid: TuiState| key_leads_to(before, key, now, mid, after, decision)
}

impl Dashboard {
    /// The dashboard before a run, with the expected durations.
    pub fn new(etas: TextMap<Duration>) -> (r: Dashboard)
        requires
            etas.wf(),
        ensures
            r.state.wf(),
            r.state.views_ok(),
            r.state.is_initial(),
            r.state.etas == etas,
            r.last_interrupt is None,
            r.dirty,
            r.channel_open,
    {
        Dashboard {
            state: TuiState::with_etas(etas),
            last_interrupt: None,
            dirty: true,
            channel_open: true,
        }
    }

    /// A key goes down at the time `now`. Hands back how the dashboard is left,
    /// if it is, and the processes to be signalled.
    pub fn on_key(&mut self, key: KeyEvent, cancellation: &mut CancellationToken, now: Duration) -> (r: (
        Option<LoopDecision>,
        Vec<i32>,
    ))
        requires
            old(self).state.wf(),
        ensures
            final(self).state.wf(),
            final(self).channel_open == old(self).channel_open,
            final(self).dirty == (old(self).dirty || r.0 is None),
            key_handled(*old(self), key, now, *final(self), r.0),
            r.1@ == (if key_action(key) == Action::Interrupt && final(self).state.cancel
                == CancelState::Hard {
                signalled(old(cancellation).running())
            } else {
                Seq::empty()
            }),
            final(self).last_interrupt == (if key_action(key) == Action::Interrupt {
                Some(now)
            } else {
                old(self).last_interrupt
            }),
            final(cancellation).running() == old(cancellation).running(),
            final(cancellation).is_set() == (old(cancellation).is_set() || key_action(key)
                == Action::Interrupt),
    {
        let action = map_key(key);
        let result = apply_action(
            &mut self.state,
            action,
            cancellation,
            &mut self.last_interrupt,
            now,
        );
        let ghost mid = self.state;
        if result.quit {
            assert(key_leads_to(*old(self), key, now, mid, *self, Some(LoopDecision::Quit)));
            return (Some(LoopDecision::Quit), result.signal);
        }
        if let Some(req) = self.state.pending_rerun.take() {
            assert(key_leads_to(
                *old(self),
                key,
                now,
                mid,
                *self,
                Some(LoopDecision::Rerun(req)),
            ));
            return (Some(LoopDecision::Rerun(req)), result.signal);
        }
        self.dirty = true;
        assert(key_leads_to(*old(self), key, now, mid, *self, None));
        (None, result.signal)
    }

    /// The mouse is used. Only its wheel does anything: it scrolls the log.
    pub fn on_mouse(&mut self, kind: MouseEventKind)
        requires
            old(self).state.wf(),
        ensures
            final(self).state.wf(),
            final(self).last_interrupt == old(self).last_interrupt,
            final(self).channel_open == old(self).channel_open,
            match kind {
                MouseEventKind::ScrollUp => final(self).dirty && old(self).state.with_selected(
                    |b: TaskInfo| b.scrolled_up(crate::keys::MOUSE_WHEEL_LINES as nat),
                    &final(self).state,
                ),
                MouseEventKind::ScrollDown => final(self).dirty && old(self).state.with_selected(
                    |b: TaskInfo| b.scrolled_down(crate::keys::MOUSE_WHEEL_LINES as nat),
                    &final(self).state,
                ),
                MouseEventKind::Other => *final(self) == *old(self),
            },
    {
        match map_mouse_to_log_scroll(kind) {
            Some(Action::LogScrollUp(n)) => {
                self.state.scroll_logs_up(n);
                self.dirty = true;
            },
            Some(Action::LogScrollDown(n)) => {
                self.state.scroll_logs_down(n);
                self.dirty = true;
            },
            _ => {},
        }
    }

    /// The terminal changes its size.
    pub fn on_resize(&mut self)
        ensures
            *final(self) == (Dashboard { dirty: true, ..*old(self) }),
    {
        self.dirty = true;
    }

    /// The executor tells something.
    pub fn on_progress(&mut self, event: ProgressEvent)
        requires
            old(self).state.wf(),
            old(self).state.has_room(event),
        ensures
            final(self).state.wf(),
            old(self).state.follows(event, &final(self).state),
            old(self).state.views_ok() ==> final(self).state.views_ok(),
            *final(self) == (Dashboard {
                state: final(self).state,
                dirty: true,
                ..*old(self)
            }),
    {
        self.state.apply(event);
        self.dirty = true;
    }

    /// The executor is gone.
    pub fn on_disconnect(&mut self)
        ensures
            *final(self) == (Dashboard { channel_open: false, ..*old(self) }),
    {
        self.channel_open = false;
    }

    /// Whether the screen is to be drawn now; it counts as drawn afterwards.
    pub fn take_dirty(&mut self) -> (r: bool)
        ensures
            r == old(self).dirty,
            *final(self) == (Dashboard { dirty: false, ..*old(self) }),
    {
        let r = self.dirty;
        self.dirty = false;
        r
    }
}

/// The options of a run that a command starts: those given, with the command's
/// own arguments in place of theirs if it has any.
pub fn options_with_passthrough(base: &RunOptions, cmd: &ParsedCommand) -> (r: RunOptions)
    ensures
        r.same_flags(*base),
        r.force == base.force,
        r.force_tasks@ == base.force_tasks@,
        r.passthrough_args@ == (if cmd.passthrough@.len() == 0 {
            base.passthrough_args@
        } else {
            cmd.passthrough@
        }),
{
    let mut options = base.copy();
    if cmd.passthrough.len() > 0 {
        options.passthrough_args = copy_all(&cmd.passthrough);
    }
    options
}

/// The options of a run on the dashboard. One that was asked for again is forced
/// as a whole, or in the one task.
pub fn rerun_options(base: &RunOptions, request: Option<&RerunRequest>) -> (r: RunOptions)
    ensures
        r.capture_output,
        r.dry_run == base.dry_run,
        r.no_cache == base.no_cache,
        r.explain == base.explain,
        r.watch == base.watch,
        r.force_isolation == base.force_isolation,
        r.jobs == base.jobs,
        r.passthrough_args@ == base.passthrough_args@,
        r.force == (base.force || (request matches Some(req) && req.force_all)),
        texts(r.force_tasks@) == (match request {
            Some(req) if !req.force_all => seq![req.task@],
            _ => texts(base.force_tasks@),
        }),
{
    let mut options = base.copy();
    if let Some(req) = request {
        if req.force_all {
            options.force = true;
        } else {
            let mut only: Vec<String> = Vec::new();
            only.push(req.task.clone());
            assert(texts(only@) =~= seq![req.task@]);
            options.force_tasks = only;
        }
    }
    options.capture_output = true;
    options
}

/// How a run that came to its end ended.
pub fn run_outcome(summary: &RunSummary) -> (r: RunOutcome)
    ensures
        r == (if summary.skipped@.len() > 0 {
            RunOutcome::Cancelled
        } else {
            RunOutcome::Success
        }),
{
    if summary.skipped.len() > 0 {
        RunOutcome::Cancelled
    } else {
        RunOutcome::Success
    }
}

/// The names of the tasks that are not private, in ascending order.
pub open spec fn visible(keys: Seq<Seq<char>>, tasks: Map<Seq<char>, TaskSpec>) -> Seq<Seq<char>>
    decreases keys.len(),
{
    if keys.len() == 0 {
        Seq::empty()
    } else {
        let front = visible(keys.drop_last(), tasks);
        if tasks[keys.last()].private {
            front
        } else {
            front.push(keys.last())
        }
    }
}

/// The names of the tasks that are not private, in ascending order.
pub fn visible_task_names(config: &BroskiFile) -> (r: Vec<String>)
    requires
        config.task.wf(),
    ensures
        texts(r@) == visible(config.task.keys(), config.task@),
{
    let n: usize = config.task.len();
    let mut r: Vec<String> = Vec::new();
    let mut i: usize = 0;
    let ghost keys = config.task.keys();
    assert(texts(r@) =~= visible(keys.take(0), config.task@));
    while i < n
        invariant
            config.task.wf(),
            keys == config.task.keys(),
            n == keys.len(),
            i <= n,
            texts(r@) == visible(keys.take(i as int), config.task@),
        decreases n - i,
    {
        broadcast use crate::text::lemma_texts_push;
        assert(keys.take(i + 1).drop_last() =~= keys.take(i as int));
        let name = config.task.key_at(i);
        if !config.task.value_at(i).private {
            r.push(name.to_owned());
        }
        i += 1;
    }
    assert(keys.take(n as int) =~= keys);
    r
}

/// Whether running the name would run a task that is attached to the terminal.
pub open spec fn needs_terminal(config: BroskiFile, name: Seq<char>) -> bool {
    is_runnable(config, name) && exists|s: Set<Seq<char>>, task: Seq<char>|
        #![trigger needed(config.task@, config.task_named(name).unwrap(), s), s.contains(task)]
        needed(config.task@, config.task_named(name).unwrap(), s) && s.contains(task)
            && config.task@[task].how() == TaskMode::Interactive
}

/// Whether a target needs a task that is attached to the terminal. A target that
/// cannot be run needs none.
pub fn target_has_interactive_task(config: &BroskiFile, target: &str) -> (r: bool)
    requires
        config.wf(),
    ensures
        r == needs_terminal(*config, target@),
{
    let names = match required_tasks(config, target) {
        Some(names) => names,
        None => {
            return false;
        },
    };
    let ghost t = config.task_named(target@).unwrap();
    let ghost all = texts(names@).to_set();
    let mut i: usize = 0;
    while i < names.len()
        invariant
            config.wf(),
            i <= names.len(),
            all == texts(names@).to_set(),
            t == config.task_named(target@).unwrap(),
            is_runnable(*config, target@),
            needed(config.task@, t, all),
            forall|k: int|
                0 <= k < i ==> config.task@[(#[trigger] names@[k])@].how() != TaskMode::Interactive,
        decreases names.len() - i,
    {
        let name = names[i].as_str();
        assert(texts(names@)[i as int] == name@);
        assert(all.contains(name@));
        if let Some(spec) = config.task.get(name) {
            if spec.inferred_mode() == TaskMode::Interactive {
                return true;
            }
        }
        i += 1;
    }
    proof {
        assert forall|s: Set<Seq<char>>, task: Seq<char>|
            #![trigger needed(config.task@, t, s), s.contains(task)]
            needed(config.task@, t, s) && s.contains(task) implies config.task@[task].how()
            != TaskMode::Interactive by {
            assert(s.subset_of(all));
            assert(all.contains(task));
            let k = choose|k: int| 0 <= k < texts(names@).len() && texts(names@)[k] == task;
            assert(names@[k]@ == task);
        }
    }
    false
}

/// The expected durations: each named task takes as long as its newest execution
/// took, in milliseconds. Nothing is expected of a task that never ran, or whose
/// execution took no time.
pub open spec fn expected(names: Seq<Seq<char>>, took: Seq<Option<u64>>) -> Map<Seq<char>, Duration>
    decreases names.len(),
{
    if names.len() == 0 {
        Map::empty()
    } else {
        let before = expected(names.drop_last(), took.drop_last());
        match took.last() {
            Some(ms) if ms > 0 => before.insert(
                names.last(),
                Duration { nanos: (ms * 1_000_000) as u128 },
            ),
            _ => before,
        }
    }
}

/// The expected durations of the named tasks, whose newest executions took so
/// many milliseconds.
pub fn etas_of(names: &Vec<String>, took: &Vec<Option<u64>>) -> (r: TextMap<Duration>)
    requires
        names@.len() == took@.len(),
    ensures
        r.wf(),
        r@ == expected(texts(names@), took@),
{
    let mut etas: TextMap<Duration> = TextMap::new();
    let mut i: usize = 0;
    assert(texts(names@).take(0) =~= Seq::<Seq<char>>::empty());
    while i < names.len()
        invariant
            names@.len() == took@.len(),
            i <= names.len(),
            etas.wf(),
            etas@ == expected(texts(names@).take(i as int), took@.take(i as int)),
        decreases names.len() - i,
    {
        proof {
            assert(texts(names@).take(i + 1).drop_last() =~= texts(names@).take(i as int));
            assert(took@.take(i + 1).drop_last() =~= took@.take(i as int));
            assert(texts(names@).take(i + 1).last() == names@[i as int]@);
        }
        if let Some(ms) = took[i] {
            if ms > 0 {
                etas.insert(names[i].as_str(), Duration::from_millis(ms));
            }
        }
        i += 1;
    }
    assert(texts(names@).take(names.len() as int) =~= texts(names@));
    assert(took@.take(took.len() as int) =~= took@);
    etas
}

/// Only named tasks are expected to take any time.
proof fn lemma_expected(names: Seq<Seq<char>>, took: Seq<Option<u64>>, k: Seq<char>)
    requires
        names.len() == took.len(),
        expected(names, took).contains_key(k),
    ensures
        names.contains(k),
        expected(names, took)[k].nanos > 0,
    decreases names.len(),
{
    if names.len() > 0 {
        let front = names.drop_last();
        if expected(front, took.drop_last()).contains_key(k) {
            lemma_expected(front, took.drop_last(), k);
            let a = choose|a: int| 0 <= a < front.len() && front[a] == k;
            assert(names[a] == k);
        } else {
            assert(names[names.len() - 1] == k);
        }
    }
}

/// Whether the store, asked for the newest execution of the task, may tell that
/// it took this long.
pub open spec fn may_have_taken<S: ArtifactStore>(
    store: &S,
    task: Seq<char>,
    took: Option<u64>,
) -> bool {
    exists|told: Option<(u64, i64)>| #[trigger]
        may_tell(store, task, told) && took == (match told {
            Some((duration_ms, _)) => Some(duration_ms),
            None => None,
        })
}

/// Whether these are the expected durations of the tasks that a target needs,
/// for what the store told of each of them.
pub open spec fn are_fetched<S: ArtifactStore>(
    config: BroskiFile,
    target: Seq<char>,
    store: &S,
    names: Seq<Seq<char>>,
    took: Seq<Option<u64>>,
    etas: Map<Seq<char>, Duration>,
) -> bool {
    &&& names.len() == took.len()
    &&& needed(config.task@, config.task_named(target).unwrap(), names.to_set())
    &&& forall|i: int|
        0 <= i < names.len() ==> may_have_taken(store, #[trigger] names[i], took[i])
    &&& etas == expected(names, took)
}

/// How long the newest execution of each named task took, in milliseconds, as far
/// as the store tells.
fn latest_durations<S: ArtifactStore>(names: &Vec<String>, store: &S) -> (took: Vec<Option<u64>>)
    ensures
        took@.len() == names@.len(),
        forall|i: int|
            0 <= i < names@.len() ==> may_have_taken(store, (#[trigger] names@[i])@, took@[i]),
{
    let mut took: Vec<Option<u64>> = Vec::new();
    let mut i: usize = 0;
    while i < names.len()
        invariant
            i <= names.len(),
            took.len() == i,
            forall|k: int|
                0 <= k < i ==> may_have_taken(store, (#[trigger] names@[k])@, took@[k]),
        decreases names.len() - i,
    {
        let told = ask_latest(store, names[i].as_str());
        let ms: Option<u64> = match told {
            Some((duration_ms, _)) => Some(duration_ms),
            None => None,
        };
        assert(may_have_taken(store, names@[i as int]@, ms));
        took.push(ms);
        i += 1;
    }
    took
}

/// How long the tasks that a target needs took when they ran last, as far as the
/// store tells when it is asked for each of them. Whatever it tells, only tasks
/// that the target needs are expected to take any time, and nothing is expected
/// of a target that cannot be run.
pub fn prefetch_etas<S: ArtifactStore>(config: &BroskiFile, target: &str, store: &S) -> (r: TextMap<
    Duration,
>)
    requires
        config.wf(),
    ensures
        r.wf(),
        !is_runnable(*config, target@) ==> r@ == Map::<Seq<char>, Duration>::empty(),
        is_runnable(*config, target@) ==> exists|names: Seq<Seq<char>>, took: Seq<Option<u64>>|
            are_fetched(*config, target@, store, names, took, r@),
        forall|k: Seq<char>| #[trigger]
            r@.contains_key(k) ==> r@[k].nanos > 0 && exists|s: Set<Seq<char>>| #[trigger]
                needed(config.task@, config.task_named(target@).unwrap(), s) && s.contains(k),
{
    let names = match required_tasks(config, target) {
        Some(names) => names,
        None => {
            return TextMap::new();
        },
    };
    let took = latest_durations(&names, store);
    let etas = etas_of(&names, &took);
    proof {
        let all = texts(names@);
        assert forall|i: int| 0 <= i < all.len() implies may_have_taken(
            store,
            #[trigger] all[i],
            took@[i],
        ) by {
            assert(names@[i]@ == all[i]);
        }
        assert(are_fetched(*config, target@, store, all, took@, etas@));
        assert forall|k: Seq<char>| #[trigger] etas@.contains_key(k) implies etas@[k].nanos > 0
            && exists|s: Set<Seq<char>>| #[trigger]
            needed(config.task@, config.task_named(target@).unwrap(), s) && s.contains(k) by {
            lemma_expected(all, took@, k);
            assert(needed(config.task@, config.task_named(target@).unwrap(), all.to_set())
                && all.to_set().contains(k));
        }
    }
    etas
}

/// The short name of a revision: what the command printed, without the white
/// space around it. `None` when it failed, printed no text, or printed nothing.
pub fn git_short_rev(success: bool, stdout: Option<&str>) -> (r: Option<String>)
    ensures
        match r {
            Some(rev) => success && stdout is Some && rev@ == trim(stdout->0@) && rev@.len() > 0,
            None => !success || stdout is None || trim(stdout->0@).len() == 0,
        },
{
    if !success {
        return None;
    }
    match stdout {
        Some(text) => {
            let rev = trimmed(text);
            if rev.as_str().unicode_len() == 0 {
                None
            } else {
                Some(rev)
            }
        },
        None => None,
    }
}

/// The window in which a second interrupt insists is two seconds long: up to its end the run
/// is cancelled hard and the dashboard left, after it the interrupt counts as a first. The
/// first one never ends the dashboard.
pub proof fn law_interrupts_insist_for_two_seconds(
    state: TuiState,
    last: Option<Duration>,
    now: Duration,
    next: TuiState,
)
    requires
        acted_on(state, Action::Interrupt, last, now, next),
    ensures
        state.cancel == CancelState::Idle ==> next.cancel == CancelState::Soft && !ends(
            state,
            Action::Interrupt,
            last,
            now,
        ),
        state.cancel == CancelState::Soft ==> {
            let insists = match last {
                Some(t) => now.nanos - t.nanos <= 2_000_000_000,
                None => false,
            };
            &&& next.cancel == (if insists {
                CancelState::Hard
            } else {
                CancelState::Soft
            })
            &&& ends(state, Action::Interrupt, last, now) == insists
        },
        state.cancel == CancelState::Hard ==> next.cancel == CancelState::Hard && ends(
            state,
            Action::Interrupt,
            last,
            now,
        ),
        next.tasks == state.tasks,
        next.selected == state.selected,
        next.pending_rerun == state.pending_rerun,
{
}

/// Only an interrupt cancels anything, and only one that insists signals the running tasks,
/// each of them; an interrupt is remembered with its time. Only leaving and insisting end the
/// dashboard.
pub proof fn law_only_interrupts_cancel(
    state: &mut TuiState,
    action: Action,
    cancellation: &mut CancellationToken,
    last: &mut Option<Duration>,
    now: Duration,
    r: ActionResult,
)
    requires
        call_ensures(apply_action, (state, action, cancellation, last, now), r),
    ensures
        action != Action::Interrupt ==> {
            &&& final(state).cancel == old(state).cancel
            &&& final(cancellation).is_set() == old(cancellation).is_set()
            &&& *final(last) == *old(last)
            &&& r.signal@.len() == 0
            &&& r.quit <==> action == Action::Quit
        },
        action == Action::Interrupt ==> {
            &&& final(cancellation).is_set()
            &&& *final(last) == Some(now)
            &&& r.quit <==> final(state).cancel == CancelState::Hard
            &&& r.signal@ == (if r.quit {
                signalled(old(cancellation).running())
            } else {
                Seq::empty()
            })
            &&& final(state).cancel != CancelState::Idle
        },
        final(cancellation).running() == old(cancellation).running(),
{
}

/// The cursor goes to the task before or behind, to the first or to the last one, and stays
/// on the list.
pub proof fn law_actions_move_the_cursor(
    state: TuiState,
    action: Action,
    last: Option<Duration>,
    now: Duration,
    next: TuiState,
    at: usize,
)
    requires
        acted_on(state, action, last, now, next),
        state.selected == Some(at),
        at < state.task_order@.len() <= usize::MAX,
    ensures
        action == Action::SelectNext ==> next.selected == Some(
            if at + 1 < state.task_order@.len() {
                (at + 1) as usize
            } else {
                at
            },
        ),
        action == Action::SelectPrev ==> next.selected == Some(
            if at > 0 {
                (at - 1) as usize
            } else {
                at
            },
        ),
        action == Action::SelectFirst ==> next.selected == Some(0usize),
        action == Action::SelectLast ==> next.selected == Some((state.task_order@.len() - 1) as usize),
        action != Action::SelectNext && action != Action::SelectPrev && action != Action::SelectFirst
            && action != Action::SelectLast ==> next.selected == state.selected,
        next.task_order == state.task_order,
        next.target == state.target,
        next.run_finished == state.run_finished,
{
}

/// After the run, a task can be run again, or the target as a whole: the request names the
/// task under the cursor or the target, and nothing else makes one. During the run none is
/// made.
pub proof fn law_what_is_run_again(
    state: TuiState,
    action: Action,
    last: Option<Duration>,
    now: Duration,
    next: TuiState,
    at: usize,
    target: String,
)
    requires
        acted_on(state, action, last, now, next),
        state.selected == Some(at),
        at < state.task_order@.len(),
        state.target == Some(target),
    ensures
        action == Action::ForceRerunSelected && state.run_finished ==> (next.pending_rerun matches Some(
            request,
        ) && request.task@ == state.task_order@[at as int]@ && !request.force_all),
        action == Action::ForceRerunAll && state.run_finished ==> (next.pending_rerun matches Some(
            request,
        ) && request.task@ == target@ && request.force_all),
        !state.run_finished || action != Action::ForceRerunSelected && action != Action::ForceRerunAll
            ==> next.pending_rerun == state.pending_rerun,
{
}

/// The logs are touched by the actions on the log alone, and only that of the task under the
/// cursor: clearing empties it, scrolling up by `n` lines shows a line that is `n` lines
/// older, scrolling down one that is `n` lines newer, Home the oldest and End the newest.
pub proof fn law_actions_on_the_log(
    state: TuiState,
    action: Action,
    last: Option<Duration>,
    now: Duration,
    next: TuiState,
    k: Seq<char>,
)
    requires
        acted_on(state, action, last, now, next),
        state.tasks@.contains_key(k),
        state.tasks@[k].view_ok(),
    ensures
        next.tasks@.contains_key(k),
        state.selection() != Some(k) ==> next.tasks@[k] == state.tasks@[k],
        state.selection() == Some(k) ==> {
            let (b, a) = (state.tasks@[k], next.tasks@[k]);
            &&& action == Action::ClearLogs ==> a.logs@.len() == 0 && a.scrollback == 0 && a.follow_tail
            &&& action != Action::ClearLogs ==> a.logs == b.logs
            &&& action matches Action::LogScrollUp(n) ==> {
                &&& b.scrollback + n < b.logs@.len() ==> a.scrollback == b.scrollback + n
                &&& b.scrollback + n >= b.logs@.len() && b.logs@.len() > 0 && n > 0 ==> a.scrollback
                    == b.logs@.len() - 1
            }
            &&& action matches Action::LogScrollDown(n) ==> a.scrollback == (if b.scrollback > n {
                b.scrollback - n
            } else {
                0
            })
            &&& action == Action::LogScrollHome && b.logs@.len() > 0 ==> a.scrollback == b.logs@.len() - 1
                && !a.follow_tail
            &&& action == Action::LogScrollEnd ==> a.scrollback == 0 && a.follow_tail
            &&& a.state == b.state
            &&& a.error == b.error
            &&& a.duration == b.duration
        },
{
}

/// A key that leaves the dashboard ends it for good, one that asks for another run ends it
/// with that request, which is then taken up, and after any other key it goes on and is drawn
/// again.
pub proof fn law_keys_decide_how_it_goes_on(
    before: &mut Dashboard,
    key: KeyEvent,
    cancellation: &mut CancellationToken,
    now: Duration,
    r: (Option<LoopDecision>, Vec<i32>),
)
    requires
        call_ensures(Dashboard::on_key, (before, key, cancellation, now), r),
        old(before).state.pending_rerun is None,
    ensures
        key_action(key) == Action::Quit ==> r.0 == Some(LoopDecision::Quit),
        key_action(key) != Action::Quit && key_action(key) != Action::Interrupt ==> r.0 != Some(
            LoopDecision::Quit,
        ),
        key_action(key) == Action::Interrupt ==> (r.0 == Some(LoopDecision::Quit)
            <==> final(before).state.cancel == CancelState::Hard),
        (r.0 matches Some(LoopDecision::Rerun(request)) ==> old(before).state.run_finished && (
        key_action(key) == Action::ForceRerunSelected || key_action(key) == Action::ForceRerunAll)
            && request.force_all == (key_action(key) == Action::ForceRerunAll)),
        r.0 is None ==> final(before).dirty,
        final(before).state.pending_rerun is None,
        final(before).state.run_finished == old(before).state.run_finished,
        final(before).channel_open == old(before).channel_open,
        key_action(key) != Action::Interrupt ==> r.1@.len() == 0,
{
    let mid = choose|mid: TuiState| key_leads_to(*old(before), key, now, mid, *final(before), r.0);
    assert(key_leads_to(*old(before), key, now, mid, *final(before), r.0));
    assert(mid.cancel == final(before).state.cancel);
}

/// The wheel scrolls the log under the cursor by three lines; anything else that the mouse
/// does changes nothing.
pub proof fn law_wheel_scrolls_the_log(dashboard: &mut Dashboard, kind: MouseEventKind, k: Seq<char>)
    requires
        call_ensures(Dashboard::on_mouse, (dashboard, kind), ()),
        old(dashboard).state.selection() == Some(k),
        old(dashboard).state.tasks@.contains_key(k),
        old(dashboard).state.tasks@[k].view_ok(),
    ensures
        ({
            let (b, a) = (old(dashboard).state.tasks@[k], final(dashboard).state.tasks@[k]);
            &&& kind == MouseEventKind::ScrollUp && b.scrollback + 3 < b.logs@.len() ==> a.scrollback
                == b.scrollback + 3
            &&& kind == MouseEventKind::ScrollDown && b.scrollback >= 3 ==> a.scrollback == b.scrollback - 3
            &&& kind == MouseEventKind::Other ==> *final(dashboard) == *old(dashboard)
            &&& a.logs == b.logs
        }),
        kind != MouseEventKind::Other ==> final(dashboard).dirty,
        final(dashboard).state.selected == old(dashboard).state.selected,
{
}

/// Whatever is told or happens to the terminal, the screen is drawn once more, and once
/// drawn it is up to date.
pub proof fn law_screen_is_drawn_when_out_of_date(
    resized: &mut Dashboard,
    told: &mut Dashboard,
    gone: &mut Dashboard,
    drawn: &mut Dashboard,
    event: ProgressEvent,
    draw: bool,
)
    requires
        call_ensures(Dashboard::on_resize, (resized,), ()),
        call_ensures(Dashboard::on_progress, (told, event), ()),
        call_ensures(Dashboard::on_disconnect, (gone,), ()),
        call_ensures(Dashboard::take_dirty, (drawn,), draw),
    ensures
        final(resized).dirty && final(resized).state == old(resized).state,
        final(told).dirty && old(told).state.follows(event, &final(told).state),
        final(told).channel_open == old(told).channel_open,
        final(told).last_interrupt == old(told).last_interrupt,
        !final(gone).channel_open && final(gone).state == old(gone).state && final(gone).dirty
            == old(gone).dirty,
        draw == old(drawn).dirty && !final(drawn).dirty && final(drawn).state == old(drawn).state,
        final(drawn).channel_open == old(drawn).channel_open,
{
}

/// The dashboard is drawn as soon as it is there, waits for what the executor tells, and
/// nothing has been cancelled.
pub proof fn law_dashboard_before_the_run(etas: TextMap<Duration>, r: Dashboard)
    requires
        call_ensures(Dashboard::new, (etas,), r),
    ensures
        r.dirty && r.channel_open && r.last_interrupt is None,
        r.state.etas == etas,
        r.state.cancel == CancelState::Idle,
        r.state.task_order@.len() == 0,
        r.state.target is None,
{
}

/// A command's own arguments take the place of those of the options; without any the options
/// keep theirs. Nothing else of the options changes.
pub proof fn law_arguments_of_a_command(base: RunOptions, cmd: ParsedCommand, r: RunOptions)
    requires
        call_ensures(options_with_passthrough, (&base, &cmd), r),
    ensures
        cmd.passthrough@.len() > 0 ==> r.passthrough_args@ == cmd.passthrough@,
        cmd.passthrough@.len() == 0 ==> r.passthrough_args@ == base.passthrough_args@,
        r.dry_run == base.dry_run,
        r.explain == base.explain,
        r.no_cache == base.no_cache,
        r.watch == base.watch,
        r.force_isolation == base.force_isolation,
        r.jobs == base.jobs,
        r.capture_output == base.capture_output,
        r.force == base.force,
        r.force_tasks@ == base.force_tasks@,
{
}

/// A run on the dashboard captures what its tasks write. One that was asked for again runs
/// all tasks afresh, or the one that was named; otherwise the options are those given.
pub proof fn law_options_of_another_run(base: RunOptions, request: RerunRequest, plain: RunOptions, again: RunOptions)
    requires
        call_ensures(rerun_options, (&base, None), plain),
        call_ensures(rerun_options, (&base, Some(&request)), again),
    ensures
        plain.capture_output && again.capture_output,
        plain.force == base.force,
        texts(plain.force_tasks@) == texts(base.force_tasks@),
        request.force_all ==> again.force && texts(again.force_tasks@) == texts(base.force_tasks@),
        !request.force_all ==> again.force == base.force && texts(again.force_tasks@).len() == 1 && texts(
            again.force_tasks@,
        )[0] == request.task@,
        again.passthrough_args@ == base.passthrough_args@,
        again.dry_run == base.dry_run,
        again.no_cache == base.no_cache,
        again.explain == base.explain,
        again.force_isolation == base.force_isolation,
        again.jobs == base.jobs,
        plain.jobs == base.jobs,
        plain.passthrough_args@ == base.passthrough_args@,
{
}

/// A run of which a task was skipped was cancelled; any other that came to its end succeeded.
pub proof fn law_skipped_tasks_mean_cancelled(summary: RunSummary, r: RunOutcome)
    requires
        call_ensures(run_outcome, (&summary,), r),
    ensures
        summary.skipped@.len() > 0 ==> r == RunOutcome::Cancelled,
        summary.skipped@.len() == 0 ==> r == RunOutcome::Success,
{
}

/// The tasks that are offered are the ones that are not private, all of them, in the order of
/// the names that they are picked from.
pub proof fn law_private_tasks_are_not_offered(keys: Seq<Seq<char>>, tasks: Map<Seq<char>, TaskSpec>)
    ensures
        visible(keys, tasks) == keys.filter(|k: Seq<char>| !tasks[k].private),
    decreases keys.len(),
{
    reveal(Seq::filter);
    if keys.len() > 0 {
        law_private_tasks_are_not_offered(keys.drop_last(), tasks);
    } else {
        assert(visible(keys, tasks) =~= keys.filter(|k: Seq<char>| !tasks[k].private));
    }
}

/// A task is expected to take as long as its newest execution took: a millisecond counts a
/// million nanoseconds. Nothing is expected of one of which no execution is known.
pub proof fn law_newest_execution_is_expected(
    names: Seq<Seq<char>>,
    took: Seq<Option<u64>>,
    name: Seq<char>,
    ms: Option<u64>,
    other: Seq<char>,
)
    requires
        names.len() == took.len(),
    ensures
        ({
            let before = expected(names, took);
            let after = expected(names.push(name), took.push(ms));
            &&& ms is Some && ms != Some(0u64) ==> after.contains_key(name) && after[name].nanos
                == ms.unwrap() * 1_000_000
            &&& ms is None || ms == Some(0u64) ==> after == before
            &&& other != name ==> after.contains_key(other) == before.contains_key(other)
            &&& other != name && before.contains_key(other) ==> after[other] == before[other]
        }),
        expected(Seq::empty(), Seq::empty()) == Map::<Seq<char>, Duration>::empty(),
{
    assert(names.push(name).drop_last() =~= names);
    assert(took.push(ms).drop_last() =~= took);
}

/// The expected durations are those of the tasks that were named.
pub proof fn law_expected_durations_are_of_the_named(names: Vec<String>, took: Vec<Option<u64>>, r: TextMap<Duration>)
    requires
        call_ensures(etas_of, (&names, &took), r),
        names@.len() == took@.len(),
    ensures
        r@ == expected(texts(names@), took@),
        forall|k: Seq<char>| #[trigger]
            r@.contains_key(k) ==> texts(names@).contains(k) && r@[k].nanos > 0,
{
    assert forall|k: Seq<char>| #[trigger] r@.contains_key(k) implies texts(names@).contains(k)
        && r@[k].nanos > 0 by {
        lemma_expected(texts(names@), took@, k);
    }
}

/// A revision is shown as it was printed, without white space around it, and only if the
/// command succeeded and printed something.
pub proof fn law_revision_is_what_was_printed(success: bool, stdout: Option<&str>, r: Option<String>)
    requires
        call_ensures(git_short_rev, (success, stdout), r),
    ensures
        !success ==> r is None,
        stdout is None ==> r is None,
        success && (stdout matches Some(text) && trim(text@).len() > 0) ==> (r matches Some(rev) && rev@
            == trim(stdout->0@)),
        success && (stdout matches Some(text) && trim(text@).len() == 0) ==> r is None,
{
}

/// The names that are offered are those of the public tasks.
pub proof fn law_offered_names_are_public(config: BroskiFile, r: Vec<String>, k: Seq<char>)
    requires
        config.task.wf(),
        call_ensures(visible_task_names, (&config,), r),
    ensures
        texts(r@).contains(k) <==> config.task@.contains_key(k) && !config.task@[k].private,
        texts(r@) == config.task.keys().filter(|k: Seq<char>| !config.task@[k].private),
{
    config.task.lemma_keys();
    law_private_tasks_are_not_offered(config.task.keys(), config.task@);
    lemma_visible(config.task.keys(), config.task@, k);
}

proof fn lemma_visible(keys: Seq<Seq<char>>, tasks: Map<Seq<char>, TaskSpec>, k: Seq<char>)
    ensures
        visible(keys, tasks).contains(k) <==> keys.contains(k) && !tasks[k].private,
    decreases keys.len(),
{
    if keys.len() > 0 {
        let front = keys.drop_last();
        let before = visible(front, tasks);
        let now = visible(keys, tasks);
        lemma_visible(front, tasks, k);
        if before.contains(k) {
            let i = choose|i: int| 0 <= i < before.len() && before[i] == k;
            assert(now[i] == k);
        }
        if front.contains(k) {
            let i = choose|i: int| 0 <= i < front.len() && front[i] == k;
            assert(keys[i] == k);
        }
        if k == keys.last() {
            assert(keys[keys.len() - 1] == k);
            if !tasks[k].private {
                assert(now[now.len() - 1] == k);
            }
        } else {
            if keys.contains(k) {
                let i = choose|i: int| 0 <= i < keys.len() && keys[i] == k;
                assert(front[i] == k);
            }
            if now.contains(k) {
                let i = choose|i: int| 0 <= i < now.len() && now[i] == k;
                assert(before[i] == k);
            }
        }
    }
}

/// An interrupt is answered as the points in time say, whatever the window is: within it, with
/// its end included, a second one insists; after it, it counts as a first.
pub proof fn law_interrupt_is_answered(
    current: CancelState,
    last: Option<Duration>,
    now: Duration,
    window: Duration,
    r: (CancelState, bool),
)
    requires
        call_ensures(next_interrupt_state, (current, last, now, window), r),
    ensures
        current == CancelState::Idle ==> r == (CancelState::Soft, false),
        current == CancelState::Hard ==> r == (CancelState::Hard, true),
        current == CancelState::Soft && last is None ==> r == (CancelState::Soft, false),
        current == CancelState::Soft && (last matches Some(t) && now.nanos <= t.nanos + window.nanos) ==> r
            == (CancelState::Hard, true),
        current == CancelState::Soft && (last matches Some(t) && now.nanos > t.nanos + window.nanos) ==> r
            == (CancelState::Soft, false),
{
}

/// A target needs the terminal exactly when it can be run and it, or something that it depends
/// on, is attached to the terminal.
pub proof fn law_when_the_terminal_is_needed(
    config: BroskiFile,
    target: &str,
    r: bool,
    s: Set<Seq<char>>,
    task: Seq<char>,
)
    requires
        call_ensures(target_has_interactive_task, (&config, target), r),
    ensures
        !is_runnable(config, target@) ==> !r,
        is_runnable(config, target@) && needed(config.task@, config.task_named(target@).unwrap(), s)
            && s.contains(task) && config.task@[task].how() == TaskMode::Interactive ==> r,
        is_runnable(config, target@) && needed(config.task@, config.task_named(target@).unwrap(), s) && (
        forall|k: Seq<char>| #[trigger] s.contains(k) ==> config.task@[k].how() != TaskMode::Interactive)
            ==> !r,
{
    if is_runnable(config, target@) && needed(config.task@, config.task_named(target@).unwrap(), s) && r {
        let t = config.task_named(target@).unwrap();
        let (x, k) = choose|x: Set<Seq<char>>, k: Seq<char>|
            #![trigger needed(config.task@, t, x), x.contains(k)]
            needed(config.task@, t, x) && x.contains(k) && config.task@[k].how() == TaskMode::Interactive;
        assert(x.subset_of(s));
        assert(s.contains(k));
    }
}

/// Whatever the store tells, durations are expected only of tasks that the target needs.
pub proof fn law_only_needed_tasks_are_expected<S: ArtifactStore>(
    config: BroskiFile,
    target: &str,
    store: S,
    r: TextMap<Duration>,
    k: Seq<char>,
)
    requires
        call_ensures(prefetch_etas::<S>, (&config, target, &store), r),
        r@.contains_key(k),
    ensures
        is_runnable(config, target@),
        r@[k].nanos > 0,
        exists|s: Set<Seq<char>>| #[trigger]
            needed(config.task@, config.task_named(target@).unwrap(), s) && s.contains(k),
{
}

/// A task that the target needs is expected to take as long as the store told of its newest
/// execution: where it can only tell of one that took some time, a duration is expected, and
/// any duration that is expected is one that it may tell of.
pub proof fn law_store_decides_what_is_expected<S: ArtifactStore>(
    config: BroskiFile,
    target: &str,
    store: S,
    r: TextMap<Duration>,
    s: Set<Seq<char>>,
    k: Seq<char>,
)
    requires
        call_ensures(prefetch_etas::<S>, (&config, target, &store), r),
        is_runnable(config, target@),
        needed(config.task@, config.task_named(target@).unwrap(), s),
    ensures
        s.contains(k) && (forall|told: Option<(u64, i64)>| #[trigger]
            may_tell(&store, k, told) ==> (told matches Some((ms, _)) && ms > 0)) ==> r@.contains_key(k),
        r@.contains_key(k) ==> s.contains(k) && exists|ms: u64, stamp: i64| #[trigger]
            may_tell(&store, k, Some((ms, stamp))) && r@[k].nanos == ms * 1_000_000,
{
    let t = config.task_named(target@).unwrap();
    let (names, took) = choose|names: Seq<Seq<char>>, took: Seq<Option<u64>>|
        are_fetched(config, target@, &store, names, took, r@);
    assert(are_fetched(config, target@, &store, names, took, r@));
    assert(names.to_set().subset_of(s) && s.subset_of(names.to_set()));
    if s.contains(k) && (forall|told: Option<(u64, i64)>| #[trigger]
        may_tell(&store, k, told) ==> (told matches Some((ms, _)) && ms > 0)) {
        assert(names.to_set().contains(k));
        let i = choose|i: int| 0 <= i < names.len() && names[i] == k;
        assert(may_have_taken(&store, names[i], took[i]));
        lemma_expected_has(names, took, i);
    }
    if r@.contains_key(k) {
        lemma_expected(names, took, k);
        assert(names.to_set().contains(k));
        let i = lemma_expected_from(names, took, k);
        assert(may_have_taken(&store, names[i], took[i]));
        let told = choose|told: Option<(u64, i64)>| #[trigger]
            may_tell(&store, k, told) && took[i] == (match told {
                Some((duration_ms, _)) => Some(duration_ms),
                None => None,
            });
        let (ms, stamp) = told.unwrap();
        assert(may_tell(&store, k, Some((ms, stamp))));
    }
}

/// A task of which an execution that took some time is known is expected to take some.
proof fn lemma_expected_has(names: Seq<Seq<char>>, took: Seq<Option<u64>>, i: int)
    requires
        names.len() == took.len(),
        0 <= i < names.len(),
        took[i] matches Some(ms) && ms > 0,
    ensures
        expected(names, took).contains_key(names[i]),
    decreases names.len(),
{
    if i < names.len() - 1 {
        lemma_expected_has(names.drop_last(), took.drop_last(), i);
    }
}

/// What is expected of a task comes from one of its executions.
proof fn lemma_expected_from(names: Seq<Seq<char>>, took: Seq<Option<u64>>, k: Seq<char>) -> (i: int)
    requires
        names.len() == took.len(),
        expected(names, took).contains_key(k),
    ensures
        0 <= i < names.len(),
        names[i] == k,
        took[i] matches Some(ms) && expected(names, took)[k].nanos == ms * 1_000_000,
    decreases names.len(),
{
    let n = names.len() - 1;
    if names[n] == k && (took[n] matches Some(ms) && ms > 0) {
        n
    } else {
        lemma_expected_from(names.drop_last(), took.drop_last(), k)
    }
}

/// A key that asks for another run once the run has finished ends the dashboard with the
/// request for it: of the task under the cursor alone, or of the target as a whole. During the
/// run it does nothing. An interrupt is remembered, sets the token, and signals the children
/// once it insists.
pub proof fn law_keys_ask_for_another_run(
    before: &mut Dashboard,
    key: KeyEvent,
    cancellation: &mut CancellationToken,
    now: Duration,
    r: (Option<LoopDecision>, Vec<i32>),
    name: Seq<char>,
    target: String,
)
    requires
        call_ensures(Dashboard::on_key, (before, key, cancellation, now), r),
        old(before).state.pending_rerun is None,
        old(before).state.selection() == Some(name),
        old(before).state.target == Some(target),
    ensures
        old(before).state.run_finished && key_action(key) == Action::ForceRerunSelected ==> (
        r.0 matches Some(LoopDecision::Rerun(request)) && request.task@ == name && !request.force_all),
        old(before).state.run_finished && key_action(key) == Action::ForceRerunAll ==> (
        r.0 matches Some(LoopDecision::Rerun(request)) && request.task@ == target@ && request.force_all),
        !old(before).state.run_finished && (key_action(key) == Action::ForceRerunSelected || key_action(key)
            == Action::ForceRerunAll) ==> r.0 is None && final(before).state == old(before).state,
        key_action(key) == Action::Interrupt ==> {
            &&& final(before).last_interrupt == Some(now)
            &&& final(cancellation).is_set()
            &&& final(before).state.cancel == CancelState::Hard ==> r.1@ == signalled(
                old(cancellation).running(),
            )
            &&& final(before).state.cancel != CancelState::Hard ==> r.1@.len() == 0
        },
        key_action(key) != Action::Interrupt ==> final(before).last_interrupt == old(before).last_interrupt
            && final(cancellation).is_set() == old(cancellation).is_set() && final(before).state.cancel
            == old(before).state.cancel,
        final(cancellation).running() == old(cancellation).running(),
{
    let mid = choose|mid: TuiState| key_leads_to(*old(before), key, now, mid, *final(before), r.0);
    assert(key_leads_to(*old(before), key, now, mid, *final(before), r.0));
}

} // verus!
