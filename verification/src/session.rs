//! A session on the launcher screen.
//!
//! Keys go in, and what the application is to do comes out. What came of it goes
//! in again.

use vstd::prelude::*;
use crate::dashboard::{visible, visible_task_names};
use crate::keys::{launcher_key_action, map_launcher_key, KeyEvent};
use crate::launcher::{
    outcome_text, remembered, Decision, LauncherAction, LauncherDecision, LauncherState,
    ParsedCommand, RunHistoryEntry, RunOutcome, Screen,
};
use crate::model::{BroskiFile, TaskSpec};
use crate::number::{dec, dec_string};
use crate::store::{ask_latest, may_tell, ArtifactStore, PruneReport, StoreError, StoreStats};
use crate::text::copy_all;
use crate::text_map::TextMap;
use crate::theme::{TerminalKind, Theme};
use crate::time::{duration_text, Duration};

verus! {

/// What is shown of a task beside the list.
#[derive(Debug, Clone)]
pub struct TaskMeta {
    pub description: Option<String>,
    pub deps: Vec<String>,
    pub inputs_count: usize,
    pub outputs_count: usize,
    /// How long the task took when it ran last.
    pub last_duration_ms: Option<u64>,
    /// How long ago that was.
    pub last_run_ago_secs: Option<i64>,
}

/// The difference, or the nearest number that there is.
pub open spec fn saturated(n: int) -> i64 {
    if n > i64::MAX {
        i64::MAX
    } else if n < i64::MIN {
        i64::MIN
    } else {
        n as i64
    }
}

/// Whether this is shown of the task. `latest` is the duration and the time
/// stamp of its newest execution.
pub open spec fn is_meta(
    meta: TaskMeta,
    spec: TaskSpec,
    latest: Option<(u64, i64)>,
    now: i64,
) -> bool {
    &&& meta.description == spec.description
    &&& meta.deps@ == spec.deps@
    &&& meta.inputs_count == spec.inputs@.len()
    &&& meta.outputs_count == spec.outputs@.len()
    &&& meta.last_duration_ms == (match latest {
        Some((duration_ms, _)) if duration_ms > 0 => Some(duration_ms),
        _ => None,
    })
    &&& meta.last_run_ago_secs == (match latest {
        Some((_, created_at)) => Some(saturated(now - created_at)),
        None => None,
    })
}

/// What is shown of a task.
pub fn task_meta(spec: &TaskSpec, latest: Option<(u64, i64)>, now: i64) -> (r: TaskMeta)
    ensures
        is_meta(r, *spec, latest, now),
{
    let description = match &spec.description {
        Some(text) => Some(text.clone()),
        None => None,
    };
    let mut last_duration_ms: Option<u64> = None;
    let mut last_run_ago_secs: Option<i64> = None;
    if let Some((duration_ms, created_at)) = latest {
        if duration_ms > 0 {
            last_duration_ms = Some(duration_ms);
        }
        let ago: i128 = now as i128 - created_at as i128;
        let ago: i64 = if ago > i64::MAX as i128 {
            i64::MAX
        } else if ago < i64::MIN as i128 {
            i64::MIN
        } else {
            ago as i64
        };
        last_run_ago_secs = Some(ago);
    }
    TaskMeta {
        description,
        deps: copy_all(&spec.deps),
        inputs_count: spec.inputs.len(),
        outputs_count: spec.outputs.len(),
        last_duration_ms,
        last_run_ago_secs,
    }
}

/// What the screen shows beside the launcher's own state.
#[derive(Debug, Clone)]
pub struct LauncherCtx {
    pub workspace_display: String,
    pub version: String,
    pub git_rev: Option<String>,
    pub theme_resolved_name: String,
    /// The name of the theme that was asked for, if it is another one.
    pub theme_requested_name: Option<String>,
    pub cache_stats: StoreStats,
    pub task_meta: TextMap<TaskMeta>,
}

/// Whether the names are those of the themes.
pub open spec fn names_themes(ctx: LauncherCtx, requested: Theme, resolved: Theme) -> bool {
    &&& ctx.theme_resolved_name@ == resolved.label()
    &&& match ctx.theme_requested_name {
        Some(name) => requested != resolved && name@ == requested.label(),
        None => requested == resolved,
    }
}

/// Whether the map tells of the tasks, those that are private left out.
/// `latest[i]` is the duration and the time stamp of the newest execution of the
/// task `keys[i]`.
pub open spec fn tells_of(
    meta: Map<Seq<char>, TaskMeta>,
    keys: Seq<Seq<char>>,
    tasks: Map<Seq<char>, TaskSpec>,
    latest: Seq<Option<(u64, i64)>>,
    now: i64,
) -> bool {
    &&& forall|k: Seq<char>| #[trigger]
        meta.contains_key(k) <==> keys.contains(k) && !tasks[k].private
    &&& forall|i: int|
        0 <= i < keys.len() && !tasks[#[trigger] keys[i]].private ==> is_meta(
            meta[keys[i]],
            tasks[keys[i]],
            latest[i],
            now,
        )
}

/// What is shown of each task that is not private. `latest` holds the duration
/// and the time stamp of the newest execution of each task, in ascending order of
/// their names.
pub fn task_metas(tasks: &TextMap<TaskSpec>, latest: &Vec<Option<(u64, i64)>>, now: i64) -> (r: TextMap<
    TaskMeta,
>)
    requires
        tasks.wf(),
        latest@.len() == tasks.keys().len(),
    ensures
        r.wf(),
        tells_of(r@, tasks.keys(), tasks@, latest@, now),
{
    let n: usize = tasks.len();
    let mut meta: TextMap<TaskMeta> = TextMap::new();
    let mut i: usize = 0;
    let ghost keys = tasks.keys();
    proof {
        tasks.lemma_keys();
    }
    while i < n
        invariant
            tasks.wf(),
            keys == tasks.keys(),
            keys.no_duplicates(),
            n == keys.len(),
            latest@.len() == n,
            i <= n,
            meta.wf(),
            tells_of(meta@, keys.take(i as int), tasks@, latest@, now),
        decreases n - i,
    {
        let name = tasks.key_at(i);
        let spec = tasks.value_at(i);
        let ghost before = meta@;
        let ghost t0 = keys.take(i as int);
        let ghost t1 = keys.take(i + 1);
        assert(t1 =~= t0.push(name@));
        if !spec.private {
            let m = task_meta(spec, latest[i], now);
            meta.insert(name, m);
        }
        proof {
            assert forall|k: Seq<char>| #[trigger] meta@.contains_key(k) <==> t1.contains(k)
                && !tasks@[k].private by {
                assert(before.contains_key(k) <==> t0.contains(k) && !tasks@[k].private);
                if t0.contains(k) {
                    let a = choose|a: int| 0 <= a < t0.len() && t0[a] == k;
                    assert(t1[a] == k);
                }
                if k == name@ {
                    assert(t1[i as int] == k);
                }
                if t1.contains(k) && k != name@ {
                    let a = choose|a: int| 0 <= a < t1.len() && t1[a] == k;
                    assert(t0[a] == k);
                }
            }
            assert forall|a: int|
                0 <= a < t1.len() && !tasks@[#[trigger] t1[a]].private implies is_meta(
                meta@[t1[a]],
                tasks@[t1[a]],
                latest@[a],
                now,
            ) by {
                if a < i {
                    assert(t0[a] == t1[a]);
                    assert(keys[a] != keys[i as int]);
                }
            }
        }
        i += 1;
    }
    assert(keys.take(n as int) =~= keys);
    meta
}

/// Whether the screen shows this beside the launcher's own state, when the store
/// told `latest` of the tasks and `stats` of its size, if it told that.
pub open spec fn is_ctx(
    ctx: LauncherCtx,
    config: BroskiFile,
    latest: Seq<Option<(u64, i64)>>,
    stats: Option<StoreStats>,
    now: i64,
) -> bool {
    &&& ctx.task_meta.wf()
    &&& tells_of(ctx.task_meta@, config.task.keys(), config.task@, latest, now)
    &&& ctx.cache_stats == match stats {
        Some(told) => told,
        None => StoreStats { object_count: 0, total_bytes: 0 },
    }
}

/// What the screen shows beside the launcher's own state, when the store told
/// this of the tasks and of its size.
pub fn launcher_ctx(
    workspace_display: &str,
    version: &str,
    git_rev: Option<String>,
    config: &BroskiFile,
    latest: &Vec<Option<(u64, i64)>>,
    stats: Option<StoreStats>,
    now: i64,
    requested: Theme,
    resolved: Theme,
) -> (r: LauncherCtx)
    requires
        config.task.wf(),
        latest@.len() == config.task.keys().len(),
    ensures
        r.workspace_display@ == workspace_display@,
        r.version@ == version@,
        r.git_rev == git_rev,
        names_themes(r, requested, resolved),
        is_ctx(r, *config, latest@, stats, now),
{
    let task_meta = task_metas(&config.task, latest, now);
    let cache_stats = match stats {
        Some(told) => told,
        None => StoreStats::default(),
    };
    let theme_requested_name = if requested == resolved {
        None
    } else {
        Some(requested.name().to_owned())
    };
    LauncherCtx {
        workspace_display: workspace_display.to_owned(),
        version: version.to_owned(),
        git_rev,
        theme_resolved_name: resolved.name().to_owned(),
        theme_requested_name,
        cache_stats,
        task_meta,
    }
}

/// Whether the store may tell this of the tasks: of each that is not private the
/// duration and the time stamp of its newest execution, and nothing of the
/// others.
pub open spec fn are_told<S: ArtifactStore>(
    store: &S,
    keys: Seq<Seq<char>>,
    tasks: Map<Seq<char>, TaskSpec>,
    latest: Seq<Option<(u64, i64)>>,
) -> bool {
    &&& latest.len() == keys.len()
    &&& forall|i: int|
        0 <= i < keys.len() ==> if tasks[#[trigger] keys[i]].private {
            latest[i] is None
        } else {
            may_tell(store, keys[i], latest[i])
        }
}

/// Whether the store may tell this of its size, nothing if it fails.
pub open spec fn may_measure<S: ArtifactStore>(store: &S, stats: Option<StoreStats>) -> bool {
    exists|answer: Result<StoreStats, StoreError>| #[trigger]
        call_ensures(S::stats, (store,), answer) && stats == (match answer {
            Ok(told) => Some(told),
            Err(_) => None,
        })
}

/// The duration and the time stamp of the newest execution of each task, as far
/// as the store tells. It is not asked about private tasks.
fn latest_executions<S: ArtifactStore>(tasks: &TextMap<TaskSpec>, store: &S) -> (latest: Vec<
    Option<(u64, i64)>,
>)
    requires
        tasks.wf(),
    ensures
        are_told(store, tasks.keys(), tasks@, latest@),
{
    let n: usize = tasks.len();
    let mut latest: Vec<Option<(u64, i64)>> = Vec::new();
    let mut i: usize = 0;
    while i < n
        invariant
            tasks.wf(),
            n == tasks.keys().len(),
            i <= n,
            latest.len() == i,
            forall|k: int|
                0 <= k < i ==> if tasks@[#[trigger] tasks.keys()[k]].private {
                    latest@[k] is None
                } else {
                    may_tell(store, tasks.keys()[k], latest@[k])
                },
        decreases n - i,
    {
        let told = if tasks.value_at(i).private {
            None
        } else {
            ask_latest(store, tasks.key_at(i))
        };
        latest.push(told);
        i += 1;
    }
    latest
}

/// The size of the store, as far as it tells.
fn ask_stats<S: ArtifactStore>(store: &S) -> (stats: Option<StoreStats>)
    ensures
        may_measure(store, stats),
{
    let answer = store.stats();
    assert(call_ensures(S::stats, (store,), answer));
    match answer {
        Ok(told) => Some(told),
        Err(_) => None,
    }
}

/// Whether the screen shows this beside the launcher's own state, for what the
/// store may tell.
pub open spec fn is_told_ctx<S: ArtifactStore>(
    ctx: LauncherCtx,
    config: BroskiFile,
    store: &S,
    latest: Seq<Option<(u64, i64)>>,
    stats: Option<StoreStats>,
    now: i64,
) -> bool {
    &&& are_told(store, config.task.keys(), config.task@, latest)
    &&& may_measure(store, stats)
    &&& is_ctx(ctx, config, latest, stats, now)
}

/// What the screen shows beside the launcher's own state. Of each task that is
/// not private it shows what is declared, and what the store tells of its newest
/// execution; the store's size is shown as nothing where the store does not tell
/// it.
pub fn build_launcher_ctx<S: ArtifactStore>(
    workspace_display: &str,
    version: &str,
    git_rev: Option<String>,
    config: &BroskiFile,
    store: &S,
    now: i64,
    requested: Theme,
    resolved: Theme,
) -> (r: LauncherCtx)
    requires
        config.task.wf(),
    ensures
        r.workspace_display@ == workspace_display@,
        r.version@ == version@,
        r.git_rev == git_rev,
        names_themes(r, requested, resolved),
        exists|latest: Seq<Option<(u64, i64)>>, stats: Option<StoreStats>|
            is_told_ctx(r, *config, store, latest, stats, now),
{
    let latest = latest_executions(&config.task, store);
    let stats = ask_stats(store);
    let r = launcher_ctx(
        workspace_display,
        version,
        git_rev,
        config,
        &latest,
        stats,
        now,
        requested,
        resolved,
    );
    assert(is_told_ctx(r, *config, store, latest@, stats, now));
    r
}

/// What the application is to do next.
#[derive(Debug, Clone)]
pub enum SessionCall {
    /// Wait for the next event.
    Wait,
    /// Run the command and tell how it ended.
    Run(ParsedCommand),
    /// Find out about the terminal's background, for this theme.
    Detect(Theme),
    /// Read the file that declares the tasks again.
    Reload,
    /// Shrink the cache to this many megabytes.
    Prune(u64),
    /// Leave.
    Leave,
}

/// A session on the launcher screen.
#[derive(Debug, Clone)]
pub struct LauncherSession {
    pub launcher: LauncherState,
    /// The theme that the session was started with.
    pub requested_theme: Theme,
    /// The theme that is drawn with.
    pub current_theme: Theme,
    /// Whether the screen is out of date.
    pub dirty: bool,
}

/// What follows from a decision.
pub open spec fn call_of(call: SessionCall, decision: Decision) -> bool {
    match (call, decision) {
        (SessionCall::Wait, Decision::Continue) => true,
        (SessionCall::Leave, Decision::Quit) => true,
        (SessionCall::Run(cmd), Decision::Run(c)) => cmd@ == c,
        (SessionCall::Detect(theme), Decision::SwitchTheme(t)) => theme == t,
        (SessionCall::Reload, Decision::Refresh) => true,
        (SessionCall::Prune(mb), Decision::PruneCache(n)) => mb == n,
        _ => false,
    }
}

/// What a key means on the screen as it is: what it means anywhere on the
/// launcher screen, but that a `q` on an empty line quits.
pub open spec fn pressed(screen: Screen, key: KeyEvent) -> LauncherAction {
    let action = launcher_key_action(key);
    if action == LauncherAction::InsertChar('q') && screen.input.len() == 0 {
        LauncherAction::Quit
    } else {
        action
    }
}

impl LauncherSession {
    /// The session at its start.
    pub fn new(config: &BroskiFile, theme: Theme, detected: Option<TerminalKind>) -> (r: LauncherSession)
        requires
            config.task.wf(),
        ensures
            r.launcher@.all_tasks == visible(config.task.keys(), config.task@),
            r.launcher@.input.len() == 0,
            r.launcher@.history.len() == 0,
            r.launcher@.status is None,
            r.launcher@.selected == (if r.launcher@.all_tasks.len() == 0 {
                None
            } else {
                Some(0usize)
            }),
            r.launcher@.highlight_ok(),
            r.requested_theme == theme,
            r.current_theme == theme.concrete(detected),
            r.dirty,
    {
        LauncherSession {
            launcher: LauncherState::new(visible_task_names(config)),
            requested_theme: theme,
            current_theme: theme.resolved(detected),
            dirty: true,
        }
    }

    /// Acts on a decision of the launcher.
    pub fn decide(&mut self, decision: LauncherDecision) -> (r: SessionCall)
        ensures
            call_of(r, decision@),
            *final(self) == (LauncherSession {
                dirty: old(self).dirty || decision@ is Continue,
                ..*old(self)
            }),
    {
        match decision {
            LauncherDecision::Continue => {
                self.dirty = true;
                SessionCall::Wait
            },
            LauncherDecision::Quit => SessionCall::Leave,
            LauncherDecision::Run(cmd) => SessionCall::Run(cmd),
            LauncherDecision::SwitchTheme(theme) => SessionCall::Detect(theme),
            LauncherDecision::Refresh => SessionCall::Reload,
            LauncherDecision::PruneCache(mb) => SessionCall::Prune(mb),
        }
    }

    /// A key is used.
    pub fn on_key(&mut self, key: KeyEvent) -> (r: SessionCall)
        ensures
            final(self).launcher@ == old(self).launcher@.step(pressed(old(self).launcher@, key)).0,
            call_of(r, old(self).launcher@.step(pressed(old(self).launcher@, key)).1),
            *final(self) == (LauncherSession {
                launcher: final(self).launcher,
                dirty: old(self).dirty || r is Wait,
                ..*old(self)
            }),
    {
        let action = map_launcher_key(key);
        let leaves = action == LauncherAction::InsertChar('q')
            && self.launcher.input.as_str().unicode_len() == 0;
        let decision = self.launcher.apply(
            if leaves {
                LauncherAction::Quit
            } else {
                action
            },
        );
        self.decide(decision)
    }

    /// The terminal changes its size.
    pub fn on_resize(&mut self)
        ensures
            *final(self) == (LauncherSession { dirty: true, ..*old(self) }),
    {
        self.dirty = true;
    }

    /// A run has ended. `outcome` is `None` when it could not be carried out.
    pub fn on_run_ended(&mut self, target: String, outcome: Option<RunOutcome>, took: Duration)
        ensures
            final(self).launcher@ == (Screen {
                history: remembered(
                    old(self).launcher@.history,
                    RunHistoryEntry {
                        target,
                        outcome: ended_as(outcome),
                        duration: took,
                    },
                ),
                status: Some(
                    outcome_text(ended_as(outcome)) + " "@ + target@ + " in "@ + duration_text(
                        (took.nanos / 1_000_000) as nat,
                    ),
                ),
                ..old(self).launcher@
            }).cleared(),
            *final(self) == (LauncherSession {
                launcher: final(self).launcher,
                dirty: true,
                ..*old(self)
            }),
    {
        let outcome = match outcome {
            Some(outcome) => outcome,
            None => RunOutcome::Failed,
        };
        self.launcher.record_run(target, outcome, took);
        self.dirty = true;
    }

    /// The terminal's background is known, and the theme `requested` is drawn
    /// with from now on.
    pub fn on_detected(
        &mut self,
        ctx: &mut LauncherCtx,
        requested: Theme,
        detected: Option<TerminalKind>,
    )
        ensures
            final(self).current_theme == requested.concrete(detected),
            final(self).requested_theme == old(self).requested_theme,
            final(self).dirty,
            final(self).launcher@ == (Screen {
                status: Some(
                    "theme: "@ + requested.concrete(detected).label() + " (was "@
                        + requested.label() + ")"@,
                ),
                ..old(self).launcher@
            }),
            names_themes(*final(ctx), requested, requested.concrete(detected)),
            *final(ctx) == (LauncherCtx {
                theme_resolved_name: final(ctx).theme_resolved_name,
                theme_requested_name: final(ctx).theme_requested_name,
                ..*old(ctx)
            }),
    {
        let resolved = requested.resolved(detected);
        self.current_theme = resolved;
        ctx.theme_resolved_name = resolved.name().to_owned();
        ctx.theme_requested_name = if requested == resolved {
            None
        } else {
            Some(requested.name().to_owned())
        };
        let mut text = "theme: ".to_owned();
        text.append(resolved.name());
        text.append(" (was ");
        text.append(requested.name());
        text.append(")");
        self.launcher.record_status(text);
        self.dirty = true;
    }

    /// The file that declares the tasks was read again, or could not be.
    pub fn on_reloaded(&mut self, config: Result<&BroskiFile, String>)
        requires
            config matches Ok(c) ==> c.task.wf(),
        ensures
            final(self).launcher@ == (match config {
                Ok(c) => Screen {
                    status: Some("reloaded broskifile"@),
                    ..(Screen {
                        all_tasks: visible(c.task.keys(), c.task@),
                        ..old(self).launcher@
                    }).reclamped()
                },
                Err(e) => Screen {
                    status: Some("refresh failed: "@ + e@),
                    ..old(self).launcher@
                },
            }),
            *final(self) == (LauncherSession {
                launcher: final(self).launcher,
                dirty: true,
                ..*old(self)
            }),
    {
        match config {
            Ok(c) => {
                self.launcher.replace_tasks(visible_task_names(c));
                self.launcher.record_status("reloaded broskifile".to_owned());
            },
            Err(e) => {
                let mut text = "refresh failed: ".to_owned();
                text.append(e.as_str());
                self.launcher.record_status(text);
            },
        }
        self.dirty = true;
    }

    /// The cache was pruned, or could not be.
    pub fn on_pruned(&mut self, report: Result<PruneReport, String>)
        ensures
            final(self).launcher@ == (Screen {
                status: Some(
                    match report {
                        Ok(p) => "pruned "@ + dec(p.removed_objects as nat)
                            + " object(s), freed ~"@ + dec((p.removed_bytes / 1_048_576) as nat)
                            + " MB, remaining ~"@ + dec((p.remaining_bytes / 1_048_576) as nat)
                            + " MB"@,
                        Err(e) => "prune failed: "@ + e@,
                    },
                ),
                ..old(self).launcher@
            }),
            *final(self) == (LauncherSession {
                launcher: final(self).launcher,
                dirty: true,
                ..*old(self)
            }),
    {
        match report {
            Ok(p) => {
                let mut text = "pruned ".to_owned();
                let n = dec_string(p.removed_objects as u128);
                text.append(n.as_str());
                text.append(" object(s), freed ~");
                let n = dec_string((p.removed_bytes / 1_048_576) as u128);
                text.append(n.as_str());
                text.append(" MB, remaining ~");
                let n = dec_string((p.remaining_bytes / 1_048_576) as u128);
                text.append(n.as_str());
                text.append(" MB");
                self.launcher.record_status(text);
            },
            Err(e) => {
                let mut text = "prune failed: ".to_owned();
                text.append(e.as_str());
                self.launcher.record_status(text);
            },
        }
        self.dirty = true;
    }
}

/// How a run that may not have been carried out counts.
pub open spec fn ended_as(outcome: Option<RunOutcome>) -> RunOutcome {
    match outcome {
        Some(outcome) => outcome,
        None => RunOutcome::Failed,
    }
}

/// Whatever key is used, the session only ever runs a task that it lists.
pub proof fn law_session_runs_listed_tasks(
    session: LauncherSession,
    key: KeyEvent,
    cmd: ParsedCommand,
)
    requires
        call_of(
            SessionCall::Run(cmd),
            session.launcher@.step(pressed(session.launcher@, key)).1,
        ),
    ensures
        session.launcher@.all_tasks.contains(cmd.target@),
{
    crate::launcher::law_only_known_tasks_run(session.launcher@, pressed(session.launcher@, key));
}

/// A `q` leaves the session exactly while nothing is typed; otherwise it is
/// typed, as any other letter is.
pub proof fn law_q_leaves_an_empty_line(screen: Screen, key: KeyEvent)
    requires
        launcher_key_action(key) == LauncherAction::InsertChar('q'),
    ensures
        screen.step(pressed(screen, key)).1 is Quit <==> screen.input.len() == 0,
        screen.input.len() > 0 ==> screen.step(pressed(screen, key)).0.input
            == screen.input.push('q'),
{
}

/// Each decision of the launcher leads to the call that carries it out: a run to that run, a
/// switch to finding out about the terminal for that theme, and so on.
pub proof fn law_decisions_are_carried_out(call: SessionCall, decision: Decision)
    requires
        call_of(call, decision),
    ensures
        call is Wait <==> decision is Continue,
        call is Leave <==> decision is Quit,
        call is Run <==> decision is Run,
        call is Detect <==> decision is SwitchTheme,
        call is Reload <==> decision is Refresh,
        call is Prune <==> decision is PruneCache,
        (call matches SessionCall::Run(cmd) ==> decision == Decision::Run(cmd@)),
        (call matches SessionCall::Detect(theme) ==> decision == Decision::SwitchTheme(theme)),
        (call matches SessionCall::Prune(mb) ==> decision == Decision::PruneCache(mb)),
{
}

/// Beside a task stand what it declares and how long ago its newest execution was, in
/// seconds, with its duration unless that is not known.
pub proof fn law_what_is_shown_of_a_task(spec: TaskSpec, latest: Option<(u64, i64)>, now: i64, r: TaskMeta)
    requires
        call_ensures(task_meta, (&spec, latest, now), r),
    ensures
        r.description == spec.description,
        r.deps@ == spec.deps@,
        r.inputs_count == spec.inputs@.len(),
        r.outputs_count == spec.outputs@.len(),
        latest is None ==> r.last_duration_ms is None && r.last_run_ago_secs is None,
        latest matches Some((ms, stamp)) ==> {
            &&& ms > 0 ==> r.last_duration_ms == Some(ms)
            &&& ms == 0 ==> r.last_duration_ms is None
            &&& r.last_run_ago_secs is Some
            &&& i64::MIN <= now - stamp <= i64::MAX ==> r.last_run_ago_secs.unwrap() == now - stamp
            &&& now - stamp > i64::MAX ==> r.last_run_ago_secs.unwrap() == i64::MAX
            &&& now - stamp < i64::MIN ==> r.last_run_ago_secs.unwrap() == i64::MIN
        },
{
}

/// The screen tells of every task that is not private, and of no other.
pub proof fn law_screen_tells_of_public_tasks(
    config: BroskiFile,
    latest: Vec<Option<(u64, i64)>>,
    now: i64,
    r: TextMap<TaskMeta>,
    k: Seq<char>,
)
    requires
        config.task.wf(),
        latest@.len() == config.task.keys().len(),
        call_ensures(task_metas, (&config.task, &latest, now), r),
    ensures
        r@.contains_key(k) <==> config.task@.contains_key(k) && !config.task@[k].private,
        r@.contains_key(k) ==> r@[k].description == config.task@[k].description && r@[k].deps@
            == config.task@[k].deps@ && r@[k].inputs_count == config.task@[k].inputs@.len()
            && r@[k].outputs_count == config.task@[k].outputs@.len(),
{
    config.task.lemma_keys();
    if r@.contains_key(k) {
        let i = choose|i: int| 0 <= i < config.task.keys().len() && config.task.keys()[i] == k;
        assert(config.task.keys()[i] == k);
    }
}

/// The screen names the theme that is drawn with, and the one that was asked for only where
/// it is another. What it says of the cache is what the store told, and zeros where it told
/// nothing. The workspace, the version and the revision are those that were handed in.
pub proof fn law_what_the_screen_shows(
    workspace: &str,
    version: &str,
    rev: Option<String>,
    config: BroskiFile,
    latest: Vec<Option<(u64, i64)>>,
    stats: Option<StoreStats>,
    now: i64,
    requested: Theme,
    resolved: Theme,
    r: LauncherCtx,
)
    requires
        call_ensures(
            launcher_ctx,
            (workspace, version, rev, &config, &latest, stats, now, requested, resolved),
            r,
        ),
    ensures
        r.workspace_display@ == workspace@,
        r.version@ == version@,
        r.git_rev == rev,
        r.theme_resolved_name@ == resolved.label(),
        requested == resolved ==> r.theme_requested_name is None,
        requested != resolved ==> (r.theme_requested_name matches Some(name) && name@
            == requested.label()),
        stats is None ==> r.cache_stats.object_count == 0 && r.cache_stats.total_bytes == 0,
        stats matches Some(told) ==> r.cache_stats == told,
{
}

/// A session starts with the public tasks, an empty line, the first task highlighted if there
/// is one, no history, and the theme that was asked for, drawn as the terminal has it.
pub proof fn law_session_at_its_start(
    config: BroskiFile,
    theme: Theme,
    detected: Option<TerminalKind>,
    r: LauncherSession,
)
    requires
        call_ensures(LauncherSession::new, (&config, theme, detected), r),
    ensures
        r.launcher@.all_tasks == config.task.keys().filter(|k: Seq<char>| !config.task@[k].private),
        r.launcher@.input.len() == 0 && r.launcher@.history.len() == 0 && r.launcher@.status is None,
        r.launcher@.all_tasks.len() > 0 ==> r.launcher@.selected == Some(0usize),
        r.launcher@.all_tasks.len() == 0 ==> r.launcher@.selected is None,
        r.requested_theme == theme,
        theme != Theme::Auto ==> r.current_theme == theme,
        theme == Theme::Auto && detected == Some(TerminalKind::Dark) ==> r.current_theme == Theme::Dark,
        theme == Theme::Auto && detected == Some(TerminalKind::Light) ==> r.current_theme == Theme::Light,
        theme == Theme::Auto && detected is None ==> r.current_theme == Theme::Default,
        r.dirty,
{
    crate::dashboard::law_private_tasks_are_not_offered(config.task.keys(), config.task@);
}

/// A letter that is typed stands at the end of the line, but a `q` on an empty line leaves.
/// The themes stay whatever key is used, and the screen is drawn again after each key that
/// leads to nothing else.
pub proof fn law_keys_on_the_screen(session: &mut LauncherSession, key: KeyEvent, c: char, r: SessionCall)
    requires
        call_ensures(LauncherSession::on_key, (session, key), r),
        launcher_key_action(key) == LauncherAction::InsertChar(c),
    ensures
        c != 'q' || old(session).launcher@.input.len() > 0 ==> r is Wait && final(session).launcher@.input
            == old(session).launcher@.input.push(c) && final(session).dirty,
        c == 'q' && old(session).launcher@.input.len() == 0 ==> r is Leave,
        final(session).requested_theme == old(session).requested_theme,
        final(session).current_theme == old(session).current_theme,
{
}

/// A run that has ended is put into the history with its target, its duration and how it
/// ended; one that could not be carried out counts as failed. The line is empty again, and
/// the tasks stay.
pub proof fn law_ended_run_is_remembered(
    session: &mut LauncherSession,
    target: String,
    outcome: Option<RunOutcome>,
    took: Duration,
)
    requires
        call_ensures(LauncherSession::on_run_ended, (session, target, outcome, took), ()),
    ensures
        ({
            let (b, a) = (old(session).launcher@, final(session).launcher@);
            &&& a.history.len() > 0
            &&& a.history[0].target == target
            &&& a.history[0].duration == took
            &&& outcome is None ==> a.history[0].outcome == RunOutcome::Failed
            &&& outcome matches Some(o) ==> a.history[0].outcome == o
            &&& outcome is None ==> (a.status matches Some(text) && text == outcome_text(
                RunOutcome::Failed,
            ) + " "@ + target@ + " in "@ + duration_text((took.nanos / 1_000_000) as nat))
            &&& outcome matches Some(o) ==> (a.status matches Some(text) && text == outcome_text(o)
                + " "@ + target@ + " in "@ + duration_text((took.nanos / 1_000_000) as nat))
            &&& a.input.len() == 0
            &&& a.all_tasks == b.all_tasks
        }),
        final(session).dirty,
        final(session).current_theme == old(session).current_theme,
{
}

/// Once the terminal is known, the theme that was switched to is drawn, the status says so,
/// and the screen names it.
pub proof fn law_switched_theme_is_drawn(
    session: &mut LauncherSession,
    ctx: &mut LauncherCtx,
    requested: Theme,
    detected: Option<TerminalKind>,
)
    requires
        call_ensures(LauncherSession::on_detected, (session, ctx, requested, detected), ()),
    ensures
        requested != Theme::Auto ==> final(session).current_theme == requested,
        requested == Theme::Auto && detected == Some(TerminalKind::Dark) ==> final(session).current_theme
            == Theme::Dark,
        requested == Theme::Auto && detected == Some(TerminalKind::Light) ==> final(session).current_theme
            == Theme::Light,
        requested == Theme::Auto && detected is None ==> final(session).current_theme == Theme::Default,
        final(session).launcher@.status == Some(
            "theme: "@ + final(session).current_theme.label() + " (was "@ + requested.label() + ")"@,
        ),
        final(session).launcher@.input == old(session).launcher@.input,
        final(session).launcher@.history == old(session).launcher@.history,
        final(session).launcher@.all_tasks == old(session).launcher@.all_tasks,
        final(session).requested_theme == old(session).requested_theme,
        final(ctx).theme_resolved_name@ == final(session).current_theme.label(),
        requested != Theme::Auto ==> final(ctx).theme_requested_name is None,
        final(ctx).task_meta == old(ctx).task_meta,
        final(ctx).cache_stats == old(ctx).cache_stats,
        final(session).dirty,
{
}

/// Reading the file again brings the tasks that it now declares; if that fails, the tasks
/// stay and the reason is told. The history stays either way.
pub proof fn law_reload_brings_the_tasks(session: &mut LauncherSession, config: Result<&BroskiFile, String>)
    requires
        call_ensures(LauncherSession::on_reloaded, (session, config), ()),
    ensures
        (config matches Ok(c) ==> final(session).launcher@.all_tasks == c.task.keys().filter(
            |k: Seq<char>| !c.task@[k].private,
        ) && final(session).launcher@.status == Some("reloaded broskifile"@)),
        (config matches Err(e) ==> final(session).launcher@.all_tasks == old(session).launcher@.all_tasks
            && final(session).launcher@.selected == old(session).launcher@.selected
            && final(session).launcher@.status == Some("refresh failed: "@ + e@)),
        final(session).launcher@.history == old(session).launcher@.history,
        final(session).launcher@.input == old(session).launcher@.input,
        final(session).dirty,
        final(session).current_theme == old(session).current_theme,
{
    if let Ok(c) = config {
        crate::dashboard::law_private_tasks_are_not_offered(c.task.keys(), c.task@);
    }
}

/// What a prune removed and left is told in whole megabytes of 1024 times 1024 bytes; why one
/// failed is told as it is. Nothing else on the screen changes.
pub proof fn law_prune_is_told(
    session: &mut LauncherSession,
    report: Result<PruneReport, String>,
    freed: nat,
    left: nat,
)
    requires
        call_ensures(LauncherSession::on_pruned, (session, report), ()),
        report matches Ok(p) ==> freed * 1_048_576 <= p.removed_bytes < (freed + 1) * 1_048_576,
        report matches Ok(p) ==> left * 1_048_576 <= p.remaining_bytes < (left + 1) * 1_048_576,
    ensures
        (report matches Ok(p) ==> final(session).launcher@.status == Some(
            "pruned "@ + dec(p.removed_objects as nat) + " object(s), freed ~"@ + dec(freed)
                + " MB, remaining ~"@ + dec(left) + " MB"@,
        )),
        (report matches Err(e) ==> final(session).launcher@.status == Some("prune failed: "@ + e@)),
        final(session).launcher@.all_tasks == old(session).launcher@.all_tasks,
        final(session).launcher@.input == old(session).launcher@.input,
        final(session).launcher@.history == old(session).launcher@.history,
        final(session).dirty,
{
    if let Ok(p) = report {
        assert(p.removed_bytes / 1_048_576 == freed);
        assert(p.remaining_bytes / 1_048_576 == left);
    }
}

/// A decision is carried out without touching what is typed or drawn; a new size of the
/// terminal has the screen drawn again and changes nothing else.
pub proof fn law_decision_touches_nothing(
    session: &mut LauncherSession,
    decision: LauncherDecision,
    r: SessionCall,
    resized: &mut LauncherSession,
)
    requires
        call_ensures(LauncherSession::decide, (session, decision), r),
        call_ensures(LauncherSession::on_resize, (resized,), ()),
    ensures
        call_of(r, decision@),
        final(session).launcher == old(session).launcher,
        final(session).current_theme == old(session).current_theme,
        final(session).requested_theme == old(session).requested_theme,
        decision is Continue ==> final(session).dirty,
        final(resized).dirty,
        final(resized).launcher == old(resized).launcher,
        final(resized).current_theme == old(resized).current_theme,
        final(resized).requested_theme == old(resized).requested_theme,
{
}

/// What the screen shows beside the launcher comes from the file and from what the store
/// tells: of each public task something that it may tell of it, and of its size what it may
/// tell of that.
pub proof fn law_screen_shows_what_the_store_tells<S: ArtifactStore>(
    workspace: &str,
    version: &str,
    rev: Option<String>,
    config: BroskiFile,
    store: S,
    now: i64,
    requested: Theme,
    resolved: Theme,
    r: LauncherCtx,
    k: Seq<char>,
)
    requires
        config.task.wf(),
        call_ensures(
            build_launcher_ctx::<S>,
            (workspace, version, rev, &config, &store, now, requested, resolved),
            r,
        ),
    ensures
        r.workspace_display@ == workspace@ && r.version@ == version@ && r.git_rev == rev,
        r.theme_resolved_name@ == resolved.label(),
        r.task_meta@.contains_key(k) <==> config.task@.contains_key(k) && !config.task@[k].private,
        r.task_meta@.contains_key(k) ==> exists|told: Option<(u64, i64)>| #[trigger]
            may_tell(&store, k, told) && {
                let meta = r.task_meta@[k];
                &&& meta.description == config.task@[k].description
                &&& meta.deps@ == config.task@[k].deps@
                &&& told is None ==> meta.last_run_ago_secs is None && meta.last_duration_ms is None
                &&& told matches Some((ms, stamp)) ==> {
                    &&& ms > 0 ==> meta.last_duration_ms == Some(ms)
                    &&& i64::MIN <= now - stamp <= i64::MAX ==> meta.last_run_ago_secs == Some(
                        (now - stamp) as i64,
                    )
                }
            },
        exists|answer: Result<StoreStats, StoreError>| #[trigger]
            call_ensures(S::stats, (&store,), answer) && (match answer {
                Ok(told) => r.cache_stats == told,
                Err(_) => r.cache_stats.object_count == 0 && r.cache_stats.total_bytes == 0,
            }),
{
    config.task.lemma_keys();
    let (latest, stats) = choose|latest: Seq<Option<(u64, i64)>>, stats: Option<StoreStats>|
        is_told_ctx(r, config, &store, latest, stats, now);
    assert(is_told_ctx(r, config, &store, latest, stats, now));
    let keys = config.task.keys();
    if r.task_meta@.contains_key(k) {
        let i = choose|i: int| 0 <= i < keys.len() && keys[i] == k;
        assert(keys[i] == k);
        assert(may_tell(&store, k, latest[i]));
    }
    let answer = choose|answer: Result<StoreStats, StoreError>| #[trigger]
        call_ensures(S::stats, (&store,), answer) && stats == (match answer {
            Ok(told) => Some(told),
            Err(_) => None,
        });
    assert(call_ensures(S::stats, (&store,), answer));
}

/// Any key but a `q` on an empty line does on the screen what it means there, and what was
/// decided is what the application is to do.
pub proof fn law_keys_act_on_the_screen(session: &mut LauncherSession, key: KeyEvent, r: SessionCall)
    requires
        call_ensures(LauncherSession::on_key, (session, key), r),
        launcher_key_action(key) != LauncherAction::InsertChar('q') || old(session).launcher@.input.len() > 0,
    ensures
        final(session).launcher@ == old(session).launcher@.step(launcher_key_action(key)).0,
        call_of(r, old(session).launcher@.step(launcher_key_action(key)).1),
        r is Wait ==> final(session).dirty,
        final(session).current_theme == old(session).current_theme,
        final(session).requested_theme == old(session).requested_theme,
{
}

} // verus!
