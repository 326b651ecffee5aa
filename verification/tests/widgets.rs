use broski::event::{LogStream, ProgressEvent, TaskMode, TaskStatus};
use broski::launcher::{LauncherAction, LauncherState, RunOutcome};
use broski::session::{LauncherCtx, TaskMeta};
use broski::state::{TaskState, TuiState};
use broski::store::StoreStats;
use broski::text_map::TextMap;
use broski::theme::{Palette, Theme};
use broski::time::Duration;
use broski::widgets::dag::{task_icon, visible_index, DagWidget};
use broski::widgets::help::HelpFooter;
use broski::widgets::launcher::LauncherWidget;
use broski::widgets::logs::LogsWidget;
use broski::widgets::slash::{SlashCommand, SlashPanel};
use broski::widgets::stats::{SessionStats, StatsPanel};
use broski::widgets::summary::SummaryWidget;
use broski::widgets::{Pane, Span};

fn palette() -> Palette {
    Theme::Dark.palette(None)
}

fn text_of(line: &Vec<Span>) -> String {
    line.iter().map(|s| s.text.as_str()).collect()
}

fn texts_of(pane: &Pane) -> Vec<String> {
    pane.lines.iter().map(text_of).collect()
}

fn started(layers: &[&[&str]]) -> TuiState {
    let mut state = TuiState::new();
    state.apply(ProgressEvent::RunStarted {
        target: "ci".to_string(),
        layers: layers
            .iter()
            .map(|layer| layer.iter().map(|n| n.to_string()).collect())
            .collect(),
    });
    state
}

fn finish(state: &mut TuiState, task: &str, status: TaskStatus, ms: u64, error: Option<&str>) {
    state.apply(ProgressEvent::TaskStarted { task: task.to_string(), mode: TaskMode::Graph });
    state.apply(ProgressEvent::TaskFinished {
        task: task.to_string(),
        status,
        duration: Duration::from_millis(ms),
        error: error.map(|e| e.to_string()),
        cache_reasons: vec![],
    });
}

fn log(state: &mut TuiState, task: &str, stream: LogStream, line: &str) {
    state.apply(ProgressEvent::LogLine {
        task: task.to_string(),
        stream,
        line: line.to_string(),
    });
}

#[test]
fn task_list_shows_layers_and_times() {
    let colors = palette();
    let mut state = started(&[&["fmt", "lint"], &["ci"]]);
    state.etas.insert("ci", Duration::from_millis(1_500));
    finish(&mut state, "fmt", TaskStatus::Executed, 42, None);
    let pane = DagWidget::new(&state, &colors).render();
    assert_eq!(pane.title, " DAG · ci ");
    assert_eq!(texts_of(&pane), vec!["✓ fmt  42ms", "○ lint", "  ↓", "○ ci  ~1.5s"]);
    assert_eq!(pane.lines[0][0].color, Some(colors.done));
    assert_eq!(pane.selected, Some(0));
    state.move_selection(2);
    let pane = DagWidget::new(&state, &colors).render();
    assert_eq!(pane.selected, Some(3));
    assert_eq!(visible_index(&state, 1), 1);
    assert_eq!(visible_index(&state, 99), 3);
    let waiting = DagWidget::new(&TuiState::new(), &colors).render();
    assert_eq!(texts_of(&waiting), vec!["  (waiting for run start…)"]);
    assert_eq!(task_icon(Some(TaskState::Skipped), &colors), ("⊘", colors.queued));
    assert_eq!(task_icon(None, &colors), ("○", colors.queued));
}

#[test]
fn log_view_follows_and_scrolls() {
    let colors = palette();
    let mut state = started(&[&["a"]]);
    let pane = LogsWidget::new(&state, &colors).render(5);
    assert_eq!(texts_of(&pane), vec!["  (no logs)"]);
    for i in 0..10 {
        let stream = if i % 2 == 0 { LogStream::Stdout } else { LogStream::Stderr };
        log(&mut state, "a", stream, &format!("line {i}"));
    }
    let pane = LogsWidget::new(&state, &colors).render(5);
    assert_eq!(pane.title, " Logs · a ");
    assert_eq!(texts_of(&pane), vec!["line 7", "line 8", "line 9"]);
    assert_eq!(pane.lines[0][0].color, Some(colors.stderr));
    assert_eq!(pane.lines[1][0].color, Some(colors.stdout));
    state.scroll_logs_up(2);
    let pane = LogsWidget::new(&state, &colors).render(5);
    assert_eq!(pane.title, " Logs · a · ↑2 ");
    assert_eq!(texts_of(&pane), vec!["line 5", "line 6", "line 7"]);
    finish(&mut state, "a", TaskStatus::Failed, 1, Some("boom"));
    assert_eq!(texts_of(&LogsWidget::new(&state, &colors).render(5)).len(), 3);
    state.scroll_logs_end();
    let pane = LogsWidget::new(&state, &colors).render(5);
    assert_eq!(texts_of(&pane).last().map(|l| l.as_str()), Some("error: boom"));
    let none = LogsWidget::new(&TuiState::new(), &colors).render(5);
    assert_eq!(texts_of(&none), vec!["  (no task selected)"]);
}

#[test]
fn summary_counts_the_tasks() {
    let colors = palette();
    let mut state = started(&[&["a", "b", "c"]]);
    let line = |state: &TuiState| texts_of(&SummaryWidget::new(state).render(&colors))[0].clone();
    assert_eq!(line(&state), "IDLE  0/3 done   running:0  cached:0  failed:0  queued:3");
    finish(&mut state, "a", TaskStatus::CacheHit, 1, None);
    state.apply(ProgressEvent::TaskStarted { task: "b".to_string(), mode: TaskMode::Graph });
    assert_eq!(line(&state), "RUNNING  1/3 done   running:1  cached:1  failed:0  queued:1");
    finish(&mut state, "c", TaskStatus::Failed, 1, Some("x"));
    state.apply(ProgressEvent::RunFinished);
    assert!(line(&state).starts_with("FAILED"));
}

#[test]
fn footer_names_the_keys() {
    let colors = palette();
    let line = HelpFooter::new(&colors).render();
    assert_eq!(text_of(&line), " q quit · ↑/↓ select · c clear logs · r redraw ");
    assert_eq!(line[0].color, Some(colors.help));
}

#[test]
fn launcher_shows_tasks_history_and_input() {
    let colors = palette();
    let mut state = LauncherState::new(vec!["fmt".to_string(), "lint".to_string()]);
    let view = LauncherWidget::new(&state, &colors, "/ws", "dark").render();
    assert_eq!(text_of(&view.header.lines[0]), "workspace: /ws   theme: dark");
    assert_eq!(view.tasks.title, " Tasks (2 of 2) ");
    assert_eq!(texts_of(&view.tasks), vec!["fmt", "lint"]);
    assert_eq!(view.tasks.selected, Some(0));
    assert_eq!(texts_of(&view.history), vec!["  (no runs yet this session)"]);
    assert_eq!(text_of(&view.status), "");
    for i in 0..7 {
        state.record_run(format!("t{i}"), RunOutcome::Cancelled, Duration::from_millis(5));
    }
    state.apply(LauncherAction::InsertChar('z'));
    let view = LauncherWidget::new(&state, &colors, "/ws", "dark").render();
    assert_eq!(view.tasks.title, " Tasks (0 of 2) ");
    assert_eq!(texts_of(&view.tasks), vec!["  (no tasks match this filter)"]);
    assert_eq!(view.tasks.selected, None);
    assert_eq!(view.history.lines.len(), 5);
    assert_eq!(text_of(&view.history.lines[0]), format!(" ⊘ {:<24}5ms", "t6"));
    assert_eq!(text_of(&view.input.lines[0]), " > z▍");
    assert!(view.input.lines[0][0].bold);
    state.record_status("done".to_string());
    let view = LauncherWidget::new(&state, &colors, "/ws", "dark").render();
    assert_eq!(text_of(&view.status), " done");
}

#[test]
fn command_panel_lists_matches() {
    let colors = palette();
    let catalog = vec![
        SlashCommand { label: "/theme".to_string(), description: "switch".to_string() },
        SlashCommand { label: "/refresh".to_string(), description: "reload".to_string() },
    ];
    let filtered = vec!["/refresh".to_string(), "/odd".to_string()];
    let pane = SlashPanel::new(&filtered, &catalog, Some(1), &colors).render();
    assert_eq!(pane.title, " Commands (2/2) ");
    assert_eq!(
        texts_of(&pane),
        vec![format!("{:<22}reload", "/refresh"), format!("{:<22}", "/odd")]
    );
    assert_eq!(pane.selected, Some(1));
    let empty = vec![];
    let pane = SlashPanel::new(&empty, &catalog, None, &colors).render();
    assert_eq!(texts_of(&pane), vec!["  (no command matches)"]);
}

#[test]
fn stats_panel_tells_of_the_session() {
    let colors = palette();
    let mut state = LauncherState::new(vec!["fmt".to_string()]);
    let mut stats = SessionStats::new();
    let mut ctx = LauncherCtx {
        workspace_display: "/ws".to_string(),
        version: "0.5.0".to_string(),
        git_rev: Some("abc".to_string()),
        theme_resolved_name: "dark".to_string(),
        theme_requested_name: Some("auto".to_string()),
        cache_stats: StoreStats { object_count: 1, total_bytes: 2048 },
        task_meta: TextMap::new(),
    };
    let view = StatsPanel::new(&state, &stats, &ctx, &colors).render(6);
    assert_eq!(
        texts_of(&view.workspace),
        vec!["/ws", "broski 0.5.0 · git@abc", "theme: auto → dark"]
    );
    assert_eq!(texts_of(&view.cache), vec![" 1 object · 2.0 KB"]);
    assert_eq!(texts_of(&view.session), vec![" 0 runs 0✓ 0✗ 0⊘  · 0ms"]);
    let card = view.task.expect("task card");
    assert_eq!(card.title, " Task: fmt ");
    assert_eq!(texts_of(&card), vec!["(missing metadata — try /refresh)"]);
    assert_eq!(texts_of(&view.recent), vec!["  (no runs yet this session)"]);

    ctx.task_meta.insert(
        "fmt",
        TaskMeta {
            description: None,
            deps: vec!["a".to_string(), "b".to_string()],
            inputs_count: 2,
            outputs_count: 1,
            last_duration_ms: Some(1_500),
            last_run_ago_secs: Some(120),
        },
    );
    stats.count(RunOutcome::Success, Duration::from_secs(2));
    stats.count(RunOutcome::Failed, Duration::from_secs(3));
    for i in 0..9 {
        state.record_run(format!("r{i}"), RunOutcome::Success, Duration::from_secs(1));
    }
    let view = StatsPanel::new(&state, &stats, &ctx, &colors).render(6);
    assert_eq!(texts_of(&view.session), vec![" 2 runs 1✓ 1✗ 0⊘  · 5.0s"]);
    let card = view.task.expect("task card");
    assert_eq!(
        texts_of(&card),
        vec!["(no description)", " deps: a, b  · in: 2  · out: 1  · last: 1.5s (2m ago)"]
    );
    assert!(card.lines[0][0].italic);
    assert_eq!(view.recent.lines.len(), 4);
    assert_eq!(text_of(&view.recent.lines[0]), format!(" ✓ {:<20}1.0s", "r8"));
}

#[test]
fn panes_are_framed_in_the_accent_colour() {
    let colors = palette();
    let state = LauncherState::new(vec!["fmt".to_string()]);
    let view = LauncherWidget::new(&state, &colors, "/ws", "dark").render();
    for pane in [&view.header, &view.tasks, &view.history, &view.input] {
        assert_eq!(pane.border, colors.accent);
    }
    assert_eq!(view.input.title, "");
    assert_eq!((view.header.selected, view.input.selected), (None, None));
    let ctx = LauncherCtx {
        workspace_display: "/ws".to_string(),
        version: "0.5.0".to_string(),
        git_rev: None,
        theme_resolved_name: "dark".to_string(),
        theme_requested_name: None,
        cache_stats: StoreStats { object_count: 0, total_bytes: 0 },
        task_meta: TextMap::new(),
    };
    let stats = SessionStats::new();
    let view = StatsPanel::new(&state, &stats, &ctx, &colors).render(6);
    for pane in [&view.workspace, &view.cache, &view.session, &view.recent] {
        assert_eq!(pane.border, colors.accent);
        assert_eq!(pane.selected, None);
    }
}
