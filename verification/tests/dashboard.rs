use broski::cancel::{CancelLevel, CancellationToken};
use broski::dashboard::{
    apply_action, etas_of, git_short_rev, next_interrupt_state, options_with_passthrough,
    prefetch_etas, rerun_options, run_outcome, target_has_interactive_task, visible_task_names,
    Dashboard, LoopDecision, CANCEL_WINDOW_NANOS,
};
use broski::event::{ProgressEvent, TaskMode, TaskStatus};
use broski::executor::{RunOptions, RunSummary};
use broski::keys::{Action, KeyCode, KeyEvent, KeyEventKind, MouseEventKind};
use broski::launcher::{ParsedCommand, RunOutcome};
use broski::model::{BroskiFile, BroskiSection, RunSpec, TaskSpec};
use broski::state::{CancelState, RerunRequest, TuiState};
use broski::store::{
    ArtifactStore, CachedArtifact, ExecutionRecord, PruneReport, StoreError, StoreStats,
};
use broski::text_map::TextMap;
use broski::time::Duration;

const CANCEL_WINDOW: Duration = Duration { nanos: CANCEL_WINDOW_NANOS };

fn plus(d: Duration, ms: u64) -> Duration {
    Duration { nanos: d.nanos + Duration::from_millis(ms).nanos }
}

fn shell_task(command: &str) -> TaskSpec {
    TaskSpec {
        deps: vec![],
        description: None,
        resolved_variables: TextMap::new(),
        inputs: vec![],
        stage_ro: vec![],
        outputs: vec![],
        env: TextMap::new(),
        env_inherit: vec![],
        secret_env: vec![],
        run: RunSpec::Shell(command.to_string()),
        isolation: None,
        mode: None,
        working_dir: None,
        params: vec![],
        private: false,
        confirm: None,
        shell_override: None,
        requires: vec![],
    }
}

fn config_of(task: TextMap<TaskSpec>) -> BroskiFile {
    BroskiFile {
        broski: BroskiSection { version: "0.5".to_string() },
        task,
        alias: TextMap::new(),
        load_env: vec![],
    }
}

fn key(code: KeyCode) -> KeyEvent {
    KeyEvent { code, ctrl: false, shift: false, kind: KeyEventKind::Press }
}

#[test]
fn first_interrupt_goes_soft_without_quitting() {
    let now = Duration::from_secs(100);
    let (next, quit) = next_interrupt_state(CancelState::Idle, None, now, CANCEL_WINDOW);
    assert_eq!(next, CancelState::Soft);
    assert!(!quit);
}

#[test]
fn second_interrupt_within_window_escalates_to_hard_and_quits() {
    let first = Duration::from_secs(100);
    let second = plus(first, 500);
    let (next, quit) = next_interrupt_state(CancelState::Soft, Some(first), second, CANCEL_WINDOW);
    assert_eq!(next, CancelState::Hard);
    assert!(quit);
}

#[test]
fn second_interrupt_after_window_resets_to_soft() {
    let first = Duration::from_secs(100);
    let second = plus(first, 10_000);
    let (next, quit) = next_interrupt_state(CancelState::Soft, Some(first), second, CANCEL_WINDOW);
    assert_eq!(next, CancelState::Soft);
    assert!(!quit);
}

#[test]
fn third_interrupt_after_hard_keeps_hard_and_quits() {
    let before = Duration::from_secs(100);
    let now = plus(before, 100);
    let (next, quit) = next_interrupt_state(CancelState::Hard, Some(before), now, CANCEL_WINDOW);
    assert_eq!(next, CancelState::Hard);
    assert!(quit);
}

#[test]
fn interrupt_at_the_edge_of_the_window_still_insists() {
    let first = Duration::from_secs(5);
    let edge = plus(first, 2_000);
    let late = Duration { nanos: edge.nanos + 1 };
    assert_eq!(
        next_interrupt_state(CancelState::Soft, Some(first), edge, CANCEL_WINDOW),
        (CancelState::Hard, true)
    );
    assert_eq!(
        next_interrupt_state(CancelState::Soft, Some(first), late, CANCEL_WINDOW),
        (CancelState::Soft, false)
    );
}

#[test]
fn visible_task_names_filters_private_tasks() {
    let mut tasks = TextMap::new();
    let mk = |private: bool| TaskSpec { private, ..shell_task("echo") };
    tasks.insert("public_a", mk(false));
    tasks.insert("_private", mk(true));
    tasks.insert("public_b", mk(false));
    let config = config_of(tasks);
    let names = visible_task_names(&config);
    assert!(names.contains(&"public_a".to_string()));
    assert!(names.contains(&"public_b".to_string()));
    assert!(!names.contains(&"_private".to_string()));
}

#[test]
fn target_with_only_graph_tasks_is_not_interactive() {
    let mut tasks = TextMap::new();
    tasks.insert(
        "build",
        TaskSpec {
            inputs: vec!["src/lib.rs".to_string()],
            outputs: vec!["dist/out".to_string()],
            ..shell_task("echo build")
        },
    );
    let config = config_of(tasks);
    assert!(!target_has_interactive_task(&config, "build"));
}

#[test]
fn target_with_interactive_task_is_detected() {
    let mut tasks = TextMap::new();
    // No outputs, so the mode is inferred to be interactive.
    tasks.insert("dev", shell_task("npm run dev"));
    let config = config_of(tasks);
    assert!(target_has_interactive_task(&config, "dev"));
}

#[test]
fn unknown_target_falls_back_to_dashboard() {
    let config = config_of(TextMap::new());
    assert!(!target_has_interactive_task(&config, "ghost"));
}

#[test]
fn interactive_dependency_makes_the_target_interactive() {
    let mut tasks = TextMap::new();
    tasks.insert("serve", shell_task("serve"));
    tasks.insert(
        "ci",
        TaskSpec {
            deps: vec!["serve".to_string()],
            outputs: vec!["dist/ci".to_string()],
            ..shell_task("ci")
        },
    );
    tasks.insert(
        "alone",
        TaskSpec { outputs: vec!["dist/alone".to_string()], ..shell_task("alone") },
    );
    let mut config = config_of(tasks);
    config.alias.insert("c", "ci".to_string());
    assert!(target_has_interactive_task(&config, "ci"));
    assert!(target_has_interactive_task(&config, "c"));
    assert!(!target_has_interactive_task(&config, "alone"));
}

#[test]
fn options_with_passthrough_overrides_only_when_present() {
    let base =
        RunOptions { passthrough_args: vec!["base".to_string()], ..RunOptions::default() };
    // No passthrough keeps the base.
    let cmd_empty = ParsedCommand { target: "t".to_string(), passthrough: vec![] };
    let opts = options_with_passthrough(&base, &cmd_empty);
    assert_eq!(opts.passthrough_args, vec!["base".to_string()]);

    // Passthrough overwrites it.
    let cmd_args = ParsedCommand {
        target: "t".to_string(),
        passthrough: vec!["x".to_string(), "y".to_string()],
    };
    let opts = options_with_passthrough(&base, &cmd_args);
    assert_eq!(opts.passthrough_args, vec!["x".to_string(), "y".to_string()]);
}

fn finished_state_with_task(task: &str, target: &str) -> TuiState {
    let mut s = TuiState::new();
    s.apply(ProgressEvent::RunStarted {
        target: target.to_string(),
        layers: vec![vec![task.to_string()]],
    });
    s.apply(ProgressEvent::TaskStarted { task: task.to_string(), mode: TaskMode::Graph });
    s.apply(ProgressEvent::TaskFinished {
        task: task.to_string(),
        status: TaskStatus::Executed,
        duration: Duration::from_millis(10),
        error: None,
        cache_reasons: Vec::new(),
    });
    s.apply(ProgressEvent::RunFinished);
    s
}

#[test]
fn force_rerun_selected_sets_pending_rerun_when_finished() {
    let mut cancellation = CancellationToken::new();
    let mut last_interrupt = None;
    let mut state = finished_state_with_task("lint", "ci");
    assert_eq!(state.selected_task(), Some("lint"));

    let result = apply_action(
        &mut state,
        Action::ForceRerunSelected,
        &mut cancellation,
        &mut last_interrupt,
        Duration::zero(),
    );
    assert!(!result.quit, "ForceRerunSelected should not quit the loop");
    assert_eq!(
        state.pending_rerun,
        Some(RerunRequest { task: "lint".to_string(), force_all: false })
    );
}

#[test]
fn force_rerun_all_uses_original_target() {
    let mut cancellation = CancellationToken::new();
    let mut last_interrupt = None;
    let mut state = finished_state_with_task("fmt", "ci");

    let result = apply_action(
        &mut state,
        Action::ForceRerunAll,
        &mut cancellation,
        &mut last_interrupt,
        Duration::zero(),
    );
    assert!(!result.quit);
    assert_eq!(
        state.pending_rerun,
        Some(RerunRequest { task: "ci".to_string(), force_all: true })
    );
}

#[test]
fn force_rerun_ignored_when_run_still_in_progress() {
    let mut cancellation = CancellationToken::new();
    let mut last_interrupt = None;
    let mut state = TuiState::new();
    state.apply(ProgressEvent::RunStarted {
        target: "ci".to_string(),
        layers: vec![vec!["lint".to_string()]],
    });
    // run_finished is still false

    for action in [Action::ForceRerunSelected, Action::ForceRerunAll] {
        apply_action(
            &mut state,
            action,
            &mut cancellation,
            &mut last_interrupt,
            Duration::zero(),
        );
        assert!(state.pending_rerun.is_none(), "a rerun during a live run must be ignored");
    }
}

#[test]
fn two_interrupts_in_a_row_signal_the_children() {
    let mut cancellation = CancellationToken::new();
    cancellation.register_child(77);
    let mut dashboard = Dashboard::new(TextMap::new());
    let ctrl_c =
        KeyEvent { code: KeyCode::Char('c'), ctrl: true, shift: false, kind: KeyEventKind::Press };
    let now = Duration::from_secs(10);

    let (decision, signals) = dashboard.on_key(ctrl_c, &mut cancellation, now);
    assert!(decision.is_none());
    assert!(signals.is_empty());
    assert_eq!(dashboard.state.cancel, CancelState::Soft);
    assert!(cancellation.is_cancelled());
    assert!(dashboard.take_dirty());

    let (decision, signals) = dashboard.on_key(ctrl_c, &mut cancellation, plus(now, 1));
    assert!(matches!(decision, Some(LoopDecision::Quit)));
    assert!(!dashboard.dirty);
    assert_eq!(signals, vec![77]);
    assert_eq!(dashboard.state.cancel, CancelState::Hard);
    assert_eq!(cancellation.cancel(CancelLevel::Hard), vec![77]);
}

#[test]
fn dashboard_reruns_and_redraws() {
    let mut cancellation = CancellationToken::new();
    let mut dashboard = Dashboard::new(TextMap::new());
    assert!(dashboard.take_dirty());
    assert!(!dashboard.take_dirty());
    dashboard.on_progress(ProgressEvent::RunStarted {
        target: "ci".to_string(),
        layers: vec![vec!["fmt".to_string()], vec!["ci".to_string()]],
    });
    assert!(dashboard.take_dirty());
    dashboard.on_mouse(MouseEventKind::Other);
    assert!(!dashboard.take_dirty());
    dashboard.on_mouse(MouseEventKind::ScrollUp);
    assert!(dashboard.take_dirty());
    dashboard.on_resize();
    assert!(dashboard.take_dirty());
    dashboard.on_disconnect();
    assert!(!dashboard.channel_open);
    dashboard.on_progress(ProgressEvent::RunFinished);
    let (decision, _) =
        dashboard.on_key(key(KeyCode::Char('x')), &mut cancellation, Duration::zero());
    match decision {
        Some(LoopDecision::Rerun(request)) => {
            assert_eq!(request, RerunRequest { task: "fmt".to_string(), force_all: false });
            let base = RunOptions::for_cpus(4);
            let options = rerun_options(&base, Some(&request));
            assert!(!options.force);
            assert_eq!(options.force_tasks, vec!["fmt".to_string()]);
        }
        other => panic!("expected a rerun, got {:?}", other),
    }
    let all = RerunRequest { task: "ci".to_string(), force_all: true };
    let options = rerun_options(&RunOptions::for_cpus(4), Some(&all));
    assert!(options.force);
    assert!(options.force_tasks.is_empty());
}

#[test]
fn run_outcome_follows_the_summary() {
    let mut summary = RunSummary::new();
    assert_eq!(run_outcome(&summary), RunOutcome::Success);
    summary.skipped.push("x".to_string());
    assert_eq!(run_outcome(&summary), RunOutcome::Cancelled);
}

#[test]
fn git_revision_is_the_trimmed_output() {
    assert_eq!(git_short_rev(true, Some("abc1234\n")).as_deref(), Some("abc1234"));
    assert_eq!(git_short_rev(true, Some(" \n")), None);
    assert_eq!(git_short_rev(true, None), None);
    assert_eq!(git_short_rev(false, Some("abc1234\n")), None);
}

struct FixedStore;

impl ArtifactStore for FixedStore {
    fn fetch_execution(
        &self,
        _task_name: &str,
        _fingerprint: &str,
    ) -> Result<Option<ExecutionRecord>, StoreError> {
        Ok(None)
    }

    fn fetch_latest_execution(
        &self,
        task_name: &str,
    ) -> Result<Option<ExecutionRecord>, StoreError> {
        match task_name {
            "slow" => Ok(Some(ExecutionRecord {
                task_name: task_name.to_string(),
                fingerprint: "fp".to_string(),
                manifest: TextMap::new(),
                artifacts: vec![],
                stdout: String::new(),
                stderr: String::new(),
                created_at: 1,
                duration_ms: 1500,
            })),
            "broken" => Err(StoreError { message: "no database".to_string() }),
            _ => Ok(None),
        }
    }

    fn fetch_history(
        &self,
        _task: Option<&str>,
        _limit: usize,
    ) -> Result<Vec<ExecutionRecord>, StoreError> {
        Ok(vec![])
    }

    fn save_execution(&self, _record: &ExecutionRecord) -> Result<(), StoreError> {
        Ok(())
    }

    fn store_artifacts(
        &self,
        _workspace: &str,
        _outputs: &Vec<String>,
    ) -> Result<Vec<CachedArtifact>, StoreError> {
        Ok(vec![])
    }

    fn restore_artifacts(
        &self,
        _workspace: &str,
        _artifacts: &Vec<CachedArtifact>,
    ) -> Result<(), StoreError> {
        Ok(())
    }

    fn prune(&self, _max_size_mb: u64) -> Result<PruneReport, StoreError> {
        Err(StoreError { message: "busy".to_string() })
    }
}

#[test]
fn etas_come_from_the_latest_runs() {
    let mut tasks = TextMap::new();
    tasks.insert("slow", shell_task("sleep 1"));
    tasks.insert("broken", shell_task("false"));
    tasks.insert(
        "all",
        TaskSpec {
            deps: vec!["slow".to_string(), "broken".to_string()],
            ..shell_task("true")
        },
    );
    let config = config_of(tasks);
    let etas = prefetch_etas(&config, "all", &FixedStore);
    assert_eq!(etas.len(), 1);
    assert_eq!(etas.get("slow"), Some(&Duration::from_millis(1500)));
    assert!(prefetch_etas(&config, "ghost", &FixedStore).is_empty());

    let names = vec!["a".to_string(), "b".to_string(), "c".to_string()];
    let noted = etas_of(&names, &vec![Some(0), Some(7), None]);
    assert_eq!(noted.len(), 1);
    assert_eq!(noted.get("b"), Some(&Duration::from_millis(7)));
    assert_eq!(FixedStore.stats(), Ok(StoreStats { object_count: 0, total_bytes: 0 }));
}
