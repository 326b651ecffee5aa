use broski::executor::RunSummary;
use broski::keys::{KeyCode, KeyEvent, KeyEventKind};
use broski::launcher::{LauncherDecision, RunOutcome};
use broski::model::{BroskiFile, BroskiSection, IsolationMode, RunSpec, TaskSpec};
use broski::report::{
    brief_summary, cache_root, doctor_report, dot_lines, emit_run_summary, history_lines,
    layer_lines, probe_args, probe_failure, prune_line, short_fingerprint, strict_tasks, task_list, Platform,
    SweepReport,
};
use broski::session::{
    build_launcher_ctx, launcher_ctx, task_meta, task_metas, LauncherSession, SessionCall,
};
use broski::store::{
    ArtifactStore, CachedArtifact, ExecutionRecord, PruneReport, StoreError, StoreStats,
};
use broski::text_map::TextMap;
use broski::theme::{TerminalKind, Theme};
use broski::time::Duration;

fn texts(list: &[&str]) -> Vec<String> {
    list.iter().map(|w| w.to_string()).collect()
}

fn task(deps: &[&str]) -> TaskSpec {
    TaskSpec {
        deps: texts(deps),
        description: None,
        resolved_variables: TextMap::new(),
        inputs: texts(&["src/a", "src/b"]),
        stage_ro: vec![],
        outputs: texts(&["out"]),
        env: TextMap::new(),
        env_inherit: vec![],
        secret_env: vec![],
        run: RunSpec::Shell("true".to_string()),
        isolation: None,
        mode: None,
        working_dir: None,
        params: vec![],
        private: false,
        confirm: None,
        shell_override: None,
        requires: vec![],
    }
}

fn config() -> BroskiFile {
    let mut tasks = TextMap::new();
    tasks.insert("fmt", TaskSpec { description: Some("format".to_string()), ..task(&[]) });
    tasks.insert("ci", task(&["fmt"]));
    tasks.insert("_hidden", TaskSpec { private: true, ..task(&[]) });
    let mut alias = TextMap::new();
    alias.insert("c", "ci".to_string());
    alias.insert("h", "_hidden".to_string());
    BroskiFile {
        broski: BroskiSection { version: "0.5".to_string() },
        task: tasks,
        alias,
        load_env: vec![],
    }
}

fn record(task: &str, fingerprint: &str, created_at: i64, duration_ms: u64) -> ExecutionRecord {
    ExecutionRecord {
        task_name: task.to_string(),
        fingerprint: fingerprint.to_string(),
        manifest: TextMap::new(),
        artifacts: vec![],
        stdout: String::new(),
        stderr: String::new(),
        created_at,
        duration_ms,
    }
}

struct OneRun;

impl ArtifactStore for OneRun {
    fn fetch_execution(
        &self,
        _task_name: &str,
        _fingerprint: &str,
    ) -> Result<Option<ExecutionRecord>, StoreError> {
        Ok(None)
    }

    fn fetch_latest_execution(
        &self,
        task_name: &str,
    ) -> Result<Option<ExecutionRecord>, StoreError> {
        if task_name == "ci" {
            Ok(Some(record("ci", "fp", 90, 1_500)))
        } else {
            Ok(None)
        }
    }

    fn fetch_history(
        &self,
        _task: Option<&str>,
        _limit: usize,
    ) -> Result<Vec<ExecutionRecord>, StoreError> {
        Ok(vec![])
    }

    fn save_execution(&self, _record: &ExecutionRecord) -> Result<(), StoreError> {
        Ok(())
    }

    fn store_artifacts(
        &self,
        _workspace: &str,
        _outputs: &Vec<String>,
    ) -> Result<Vec<CachedArtifact>, StoreError> {
        Ok(vec![])
    }

    fn restore_artifacts(
        &self,
        _workspace: &str,
        _artifacts: &Vec<CachedArtifact>,
    ) -> Result<(), StoreError> {
        Ok(())
    }

    fn prune(&self, _max_size_mb: u64) -> Result<PruneReport, StoreError> {
        Err(StoreError { message: "busy".to_string() })
    }

    fn stats(&self) -> Result<StoreStats, StoreError> {
        Ok(StoreStats { object_count: 4, total_bytes: 9 })
    }
}

fn key(code: KeyCode) -> KeyEvent {
    KeyEvent { code, ctrl: false, shift: false, kind: KeyEventKind::Press }
}

#[test]
fn context_gathers_the_last_runs() {
    let ctx = build_launcher_ctx(
        "/ws",
        "0.5.0",
        None,
        &config(),
        &OneRun,
        100,
        Theme::Auto,
        Theme::Dark,
    );
    assert_eq!(ctx.theme_resolved_name, "dark");
    assert_eq!(ctx.theme_requested_name.as_deref(), Some("auto"));
    assert_eq!(ctx.cache_stats, StoreStats { object_count: 4, total_bytes: 9 });
    let meta = ctx.task_meta.get("ci").expect("meta");
    assert_eq!(meta.deps, texts(&["fmt"]));
    assert_eq!((meta.inputs_count, meta.outputs_count), (2, 1));
    assert_eq!(meta.last_duration_ms, Some(1_500));
    assert_eq!(meta.last_run_ago_secs, Some(10));
    assert_eq!(ctx.task_meta.get("fmt").expect("meta").last_duration_ms, None);
    assert!(!ctx.task_meta.contains_key("_hidden"));
    let meta = task_meta(&task(&[]), Some((0, i64::MIN)), i64::MAX);
    assert_eq!(meta.last_run_ago_secs, Some(i64::MAX));
}

#[test]
fn context_shows_what_the_store_told() {
    let config = config();
    let latest = vec![None, Some((0, 40)), Some((7, 50))];
    let metas = task_metas(&config.task, &latest, 60);
    assert_eq!(metas.len(), 2);
    let ci = metas.get("ci").expect("meta");
    assert_eq!((ci.last_duration_ms, ci.last_run_ago_secs), (None, Some(20)));
    let fmt = metas.get("fmt").expect("meta");
    assert_eq!((fmt.last_duration_ms, fmt.last_run_ago_secs), (Some(7), Some(10)));
    assert_eq!(fmt.description.as_deref(), Some("format"));
    let ctx = launcher_ctx(
        "/ws",
        "0.5.0",
        Some("abc".to_string()),
        &config,
        &latest,
        None,
        60,
        Theme::Dark,
        Theme::Dark,
    );
    assert_eq!(ctx.cache_stats, StoreStats { object_count: 0, total_bytes: 0 });
    assert_eq!(ctx.theme_requested_name, None);
    assert_eq!(ctx.git_rev.as_deref(), Some("abc"));
    assert_eq!(ctx.task_meta.len(), 2);
}

#[test]
fn session_runs_what_is_picked() {
    let config = config();
    let mut session = LauncherSession::new(&config, Theme::Auto, Some(TerminalKind::Light));
    assert_eq!(session.current_theme, Theme::Light);
    assert_eq!(session.launcher.all_tasks, texts(&["ci", "fmt"]));
    assert_eq!(session.launcher.selected, Some(0));
    for c in "fm".chars() {
        assert!(matches!(session.on_key(key(KeyCode::Char(c))), SessionCall::Wait));
    }
    match session.on_key(key(KeyCode::Enter)) {
        SessionCall::Run(cmd) => assert_eq!(cmd.target, "fmt"),
        other => panic!("expected a run, got {:?}", other),
    }
    session.on_run_ended("fmt".to_string(), Some(RunOutcome::Success), Duration::from_secs(2));
    assert_eq!(session.launcher.history[0].outcome, RunOutcome::Success);
    session.on_run_ended("fmt".to_string(), None, Duration::from_secs(2));
    assert_eq!(session.launcher.history[0].outcome, RunOutcome::Failed);
    session.dirty = false;
    session.on_resize();
    assert!(session.dirty);
    let ctrl_c =
        KeyEvent { code: KeyCode::Char('c'), ctrl: true, shift: false, kind: KeyEventKind::Press };
    assert!(matches!(session.on_key(ctrl_c), SessionCall::Leave));
}

#[test]
fn session_follows_commands() {
    let config = config();
    let mut session = LauncherSession::new(&config, Theme::Default, None);
    let mut ctx = build_launcher_ctx(
        "/ws",
        "0.5.0",
        None,
        &config,
        &OneRun,
        100,
        Theme::Default,
        Theme::Default,
    );
    match session.decide(LauncherDecision::SwitchTheme(Theme::Auto)) {
        SessionCall::Detect(theme) => session.on_detected(&mut ctx, theme, None),
        other => panic!("expected a detection, got {:?}", other),
    }
    assert_eq!(session.current_theme, Theme::Default);
    assert_eq!(ctx.theme_requested_name.as_deref(), Some("auto"));
    assert_eq!(session.launcher.status.as_deref(), Some("theme: default (was auto)"));
    assert_eq!(ctx.theme_resolved_name, "default");
    assert!(matches!(session.decide(LauncherDecision::Refresh), SessionCall::Reload));
    session.on_reloaded(Ok(&config));
    assert!(session.launcher.status.is_some());
    session.on_reloaded(Err("no file".to_string()));
    assert!(session.launcher.status.as_deref().unwrap_or("").contains("no file"));
    assert!(matches!(session.decide(LauncherDecision::PruneCache(7)), SessionCall::Prune(7)));
    session.on_pruned(Err("busy".to_string()));
    assert!(session.launcher.status.as_deref().unwrap_or("").contains("busy"));
    session.on_pruned(Ok(PruneReport {
        removed_objects: 2,
        removed_bytes: 3,
        remaining_bytes: 4,
    }));
    assert!(session.launcher.status.as_deref().unwrap_or("").contains("2"));
}

#[test]
fn lists_leave_private_tasks_out() {
    assert_eq!(task_list(&config()), texts(&["ci", "fmt\t- format", "alias c -> ci"]));
    assert_eq!(
        layer_lines(&vec![texts(&["a", "b"]), texts(&["c"])]),
        texts(&["layer 0: a, b", "layer 1: c"])
    );
    assert_eq!(cache_root("/ws"), "/ws/.broski/cache");
}

#[test]
fn summary_shows_at_most_ten_reasons() {
    let mut summary = RunSummary::new();
    summary.executed = texts(&["b", "a"]);
    summary.cache_hits = texts(&["c"]);
    summary.cache_miss_reasons.insert("a", (0..12).map(|i| format!("r{i}")).collect());
    let lines = emit_run_summary(&summary, true);
    assert_eq!(lines[0], "cache hits: c");
    assert_eq!(lines[1], "executed: b, a");
    assert_eq!(lines[2], "explain a:");
    assert_eq!(lines[3], "- r0");
    assert_eq!(lines.len(), 3 + 10 + 1);
    assert_eq!(lines[13], "- +2 more changes");
    assert_eq!(emit_run_summary(&summary, false).len(), 2);
    assert_eq!(brief_summary(&summary).len(), 2);
}

#[test]
fn history_is_a_table() {
    let now = Duration::from_secs(1_000);
    assert_eq!(history_lines(&vec![], true, now), texts(&["(no history)"]));
    let rows = vec![record("build", "0123456789abcdef", 940, 1_500)];
    let one = history_lines(&rows, true, now);
    assert_eq!(one.len(), 2);
    assert!(one[0].starts_with("WHEN"));
    assert!(one[1].starts_with("1m ago"));
    assert!(one[1].contains("1.5s"));
    assert!(one[1].ends_with("0123456789ab…"));
    let all = history_lines(&rows, false, now);
    assert!(all[0].starts_with("TASK"));
    assert!(all[1].starts_with("build"));
    assert_eq!(short_fingerprint("short"), "short");
}

#[test]
fn doctor_reports_what_it_found() {
    let calm = SweepReport {
        active_lock_detected: false,
        stale_lock_detected: true,
        stale_lock_removed: true,
        stage_entries_removed: 1,
        tx_entries_removed: 2,
    };
    let lines =
        doctor_report("/ws", &config(), true, calm, Platform::Mac, &None).expect("report");
    assert_eq!(
        lines[..6],
        texts(&[
            "doctor: ok",
            "workspace: /ws",
            "tasks: 3",
            "repair mode: enabled",
            "runtime lock: stale detected (removed: yes)",
            "sweep cleanup: stage=1 tx=2",
        ])[..]
    );
    let busy = SweepReport { active_lock_detected: true, ..calm };
    let error =
        doctor_report("/ws", &config(), true, busy, Platform::Linux, &None).unwrap_err();
    assert!(error.contains("another Broski execution is active"));

    let mut tasks = TextMap::new();
    tasks.insert("s", TaskSpec { isolation: Some(IsolationMode::Strict), ..task(&[]) });
    tasks.insert("t", task(&[]));
    assert_eq!(strict_tasks(&tasks), texts(&["s"]));
}

#[test]
fn probe_is_judged_by_its_output() {
    assert_eq!(probe_args().last().map(|a| a.as_str()), Some("echo BROSKI_BWRAP_OK"));
    assert_eq!(probe_failure(true, "exit status: 0", "BROSKI_BWRAP_OK\n"), None);
    assert_eq!(
        probe_failure(false, "exit status: 1", "").as_deref(),
        Some("bwrap probe command failed with status exit status: 1")
    );
    assert_eq!(
        probe_failure(true, "exit status: 0", " what? ").as_deref(),
        Some("bwrap probe output missing token; got: what?")
    );
    assert_eq!(
        prune_line(PruneReport { removed_objects: 1, removed_bytes: 2, remaining_bytes: 3 }),
        "pruned objects: 1 (freed 2 bytes), remaining 3 bytes"
    );
}

#[test]
fn q_on_an_empty_line_leaves() {
    let config = config();
    let mut session = LauncherSession::new(&config, Theme::Dark, None);
    assert!(matches!(session.on_key(key(KeyCode::Char('q'))), SessionCall::Leave));
    let mut session = LauncherSession::new(&config, Theme::Dark, None);
    assert!(matches!(session.on_key(key(KeyCode::Char('f'))), SessionCall::Wait));
    assert!(matches!(session.on_key(key(KeyCode::Char('q'))), SessionCall::Wait));
    assert_eq!(session.launcher.input, "fq");
    session.on_key(key(KeyCode::Backspace));
    session.on_key(key(KeyCode::Backspace));
    assert!(matches!(session.on_key(key(KeyCode::Char('q'))), SessionCall::Leave));
}

#[test]
fn a_graph_is_drawn_with_its_arrows() {
    let mut tasks = TextMap::new();
    tasks.insert("ci", task(&["fmt", "lint"]));
    tasks.insert("fmt", task(&[]));
    assert_eq!(
        dot_lines(&texts(&["fmt", "ci", "gone"]), &tasks),
        texts(&[
            "digraph broski {",
            "  \"fmt\";",
            "  \"ci\";",
            "  \"fmt\" -> \"ci\";",
            "  \"lint\" -> \"ci\";",
            "  \"gone\";",
            "}",
        ])
    );
    assert_eq!(dot_lines(&vec![], &tasks), texts(&["digraph broski {", "}"]));
}
