use broski::event::{LogStream, ProgressEvent, TaskMode, TaskPhase, TaskStatus};
use broski::executor::{run_plan, RunOptions};
use broski::graph::TaskGraph;
use broski::model::{IsolationMode, RunSpec, TaskSpec};
use broski::state::{RerunRequest, TaskState, TuiState, LOG_CAPACITY};
use broski::task_run::{CommandOutput, TaskCall, TaskReply, TaskRun};
use broski::text_map::TextMap;
use broski::time::Duration;


fn ev_run_started(layers: Vec<Vec<&str>>) -> ProgressEvent {
    ProgressEvent::RunStarted {
        target: "ci".to_string(),
        layers: layers
            .into_iter()
            .map(|layer| layer.into_iter().map(String::from).collect())
            .collect(),
    }
}

#[test]
fn run_started_seeds_task_order_and_selection() {
    let mut s = TuiState::new();
    s.apply(ev_run_started(vec![vec!["fmt"], vec!["lint"], vec!["test"]]));
    assert_eq!(s.task_order, vec!["fmt", "lint", "test"]);
    assert_eq!(s.selected, Some(0));
    assert_eq!(s.target.as_deref(), Some("ci"));
}

#[test]
fn task_started_then_finished_transitions_state_and_counters() {
    let mut s = TuiState::new();
    s.apply(ev_run_started(vec![vec!["fmt"]]));
    s.apply(ProgressEvent::TaskStarted {
        task: "fmt".to_string(),
        mode: TaskMode::Graph,
    });
    assert_eq!(s.running_count, 1);
    assert_eq!(s.tasks.get("fmt").unwrap().state, TaskState::Running);
    s.apply(ProgressEvent::TaskFinished {
        task: "fmt".to_string(),
        status: TaskStatus::Executed,
        duration: Duration::from_millis(42),
        error: None,
        cache_reasons: Vec::new(),
    });
    assert_eq!(s.running_count, 0);
    assert_eq!(s.done_count, 1);
    assert_eq!(s.tasks.get("fmt").unwrap().state, TaskState::Done);
    assert_eq!(s.tasks.get("fmt").unwrap().duration, Duration::from_millis(42));
}

#[test]
fn cache_hit_increments_cached_counter_only() {
    let mut s = TuiState::new();
    s.apply(ev_run_started(vec![vec!["build"]]));
    s.apply(ProgressEvent::TaskStarted {
        task: "build".to_string(),
        mode: TaskMode::Graph,
    });
    s.apply(ProgressEvent::TaskFinished {
        task: "build".to_string(),
        status: TaskStatus::CacheHit,
        duration: Duration::from_millis(1),
        error: None,
        cache_reasons: Vec::new(),
    });
    assert_eq!(s.cached_count, 1);
    assert_eq!(s.done_count, 0);
    assert_eq!(s.tasks.get("build").unwrap().state, TaskState::Cached);
}

#[test]
fn failed_task_records_error_and_increments_failed() {
    let mut s = TuiState::new();
    s.apply(ev_run_started(vec![vec!["test"]]));
    s.apply(ProgressEvent::TaskStarted {
        task: "test".to_string(),
        mode: TaskMode::Graph,
    });
    s.apply(ProgressEvent::TaskFinished {
        task: "test".to_string(),
        status: TaskStatus::Failed,
        duration: Duration::from_millis(99),
        error: Some("assertion failed".to_string()),
        cache_reasons: vec!["cache miss: input changed: src/lib.rs".into()],
    });
    assert_eq!(s.failed_count, 1);
    assert_eq!(s.tasks.get("test").unwrap().state, TaskState::Failed);
    assert_eq!(s.tasks.get("test").unwrap().error.as_deref(), Some("assertion failed"));
}

#[test]
fn log_lines_are_buffered_and_capped() {
    let mut s = TuiState::new();
    s.apply(ev_run_started(vec![vec!["x"]]));
    for i in 0..(LOG_CAPACITY + 50) {
        s.apply(ProgressEvent::LogLine {
            task: "x".to_string(),
            stream: LogStream::Stdout,
            line: format!("line {i}"),
        });
    }
    let logs = &s.tasks.get("x").unwrap().logs;
    assert_eq!(logs.len(), LOG_CAPACITY);
    // Oldest 50 lines were evicted.
    assert_eq!(logs.front().unwrap().line, format!("line {}", 50));
    assert_eq!(logs.back().unwrap().line, format!("line {}", LOG_CAPACITY + 50 - 1));
}

#[test]
fn selection_cursor_clamps_at_bounds() {
    let mut s = TuiState::new();
    s.apply(ev_run_started(vec![vec!["a"], vec!["b"], vec!["c"]]));
    s.move_selection(-5);
    assert_eq!(s.selected, Some(0));
    s.move_selection(10);
    assert_eq!(s.selected, Some(2));
    s.move_selection(-1);
    assert_eq!(s.selected, Some(1));
    assert_eq!(s.selected_task(), Some("b"));
}

#[test]
fn run_finished_sets_flag() {
    let mut s = TuiState::new();
    s.apply(ev_run_started(vec![vec!["a"]]));
    s.apply(ProgressEvent::RunFinished);
    assert!(s.run_finished);
}

#[test]
fn remaining_eta_sums_only_queued_and_running_tasks() {
    let mut etas = TextMap::new();
    etas.insert("a", Duration::from_secs(2));
    etas.insert("b", Duration::from_secs(3));
    etas.insert("c", Duration::from_secs(5));
    let mut s = TuiState::with_etas(etas);
    s.apply(ev_run_started(vec![vec!["a", "b", "c"]]));
    // Initially all queued -> sum is 2+3+5 = 10.
    assert_eq!(s.remaining_eta(), Duration::from_secs(10));

    // Mark `a` running: still counts toward remaining.
    s.apply(ProgressEvent::TaskStarted {
        task: "a".to_string(),
        mode: TaskMode::Graph,
    });
    assert_eq!(s.remaining_eta(), Duration::from_secs(10));

    // Finish `a`: should drop from remaining.
    s.apply(ProgressEvent::TaskFinished {
        task: "a".to_string(),
        status: TaskStatus::Executed,
        duration: Duration::from_secs(2),
        error: None,
        cache_reasons: Vec::new(),
    });
    assert_eq!(s.remaining_eta(), Duration::from_secs(8));

    // Cache hit on `b`: also drops.
    s.apply(ProgressEvent::TaskStarted {
        task: "b".to_string(),
        mode: TaskMode::Graph,
    });
    s.apply(ProgressEvent::TaskFinished {
        task: "b".to_string(),
        status: TaskStatus::CacheHit,
        duration: Duration::from_millis(5),
        error: None,
        cache_reasons: Vec::new(),
    });
    assert_eq!(s.remaining_eta(), Duration::from_secs(5));
}

#[test]
fn remaining_eta_is_zero_with_no_history() {
    let mut s = TuiState::new();
    s.apply(ev_run_started(vec![vec!["a"]]));
    assert_eq!(s.remaining_eta(), Duration::zero());
}

fn push_log(s: &mut TuiState, task: &str, line: &str) {
    s.apply(ProgressEvent::LogLine {
        task: task.to_string(),
        stream: LogStream::Stdout,
        line: line.into(),
    });
}

#[test]
fn new_log_line_pins_scrollback_to_zero_when_following_tail() {
    let mut s = TuiState::new();
    s.apply(ev_run_started(vec![vec!["a"]]));
    push_log(&mut s, "a", "one");
    push_log(&mut s, "a", "two");
    let info = s.tasks.get("a").unwrap();
    assert!(info.follow_tail);
    assert_eq!(info.scrollback, 0);
}

#[test]
fn scroll_up_disengages_follow_and_clamps_at_top() {
    let mut s = TuiState::new();
    s.apply(ev_run_started(vec![vec!["a"]]));
    for i in 0..10 {
        push_log(&mut s, "a", &format!("line {i}"));
    }
    s.scroll_logs_up(3);
    let info = s.tasks.get("a").unwrap();
    assert_eq!(info.scrollback, 3);
    assert!(!info.follow_tail);

    // New lines should NOT snap back to bottom while user is scrolled up.
    push_log(&mut s, "a", "line 10");
    let info = s.tasks.get("a").unwrap();
    assert_eq!(info.scrollback, 3);
    assert!(!info.follow_tail);

    // Asking for way more than available clamps to len-1.
    s.scroll_logs_up(10_000);
    let info = s.tasks.get("a").unwrap();
    assert_eq!(info.scrollback, info.logs.len() - 1);
}

#[test]
fn scroll_down_to_zero_resumes_follow_tail() {
    let mut s = TuiState::new();
    s.apply(ev_run_started(vec![vec!["a"]]));
    for i in 0..5 {
        push_log(&mut s, "a", &format!("line {i}"));
    }
    s.scroll_logs_up(2);
    assert!(!s.tasks.get("a").unwrap().follow_tail);
    s.scroll_logs_down(2);
    let info = s.tasks.get("a").unwrap();
    assert_eq!(info.scrollback, 0);
    assert!(info.follow_tail);

    // Once follow is back on, new lines stay pinned at 0.
    push_log(&mut s, "a", "line 5");
    assert_eq!(s.tasks.get("a").unwrap().scrollback, 0);
}

#[test]
fn scroll_home_jumps_to_top_and_end_jumps_to_tail() {
    let mut s = TuiState::new();
    s.apply(ev_run_started(vec![vec!["a"]]));
    for i in 0..7 {
        push_log(&mut s, "a", &format!("line {i}"));
    }
    s.scroll_logs_home();
    assert_eq!(s.tasks.get("a").unwrap().scrollback, 6);
    assert!(!s.tasks.get("a").unwrap().follow_tail);
    s.scroll_logs_end();
    assert_eq!(s.tasks.get("a").unwrap().scrollback, 0);
    assert!(s.tasks.get("a").unwrap().follow_tail);
}

#[test]
fn scroll_methods_are_no_op_with_no_selection() {
    let mut s = TuiState::new();
    // No tasks, no panic.
    s.scroll_logs_up(3);
    s.scroll_logs_down(3);
    s.scroll_logs_home();
    s.scroll_logs_end();
}

#[test]
fn evicting_oldest_line_keeps_user_view_stable() {
    // When the ring buffer is full and a new line is pushed, the
    // oldest line is dropped; if the user was scrolled up, their
    // visual position should slide along with the buffer (i.e.
    // scrollback decrements by 1) so they're still looking at the
    // same lines, not a silently-shifted view.
    let mut s = TuiState::new();
    s.apply(ev_run_started(vec![vec!["x"]]));
    // Fill the ring exactly.
    for i in 0..LOG_CAPACITY {
        push_log(&mut s, "x", &format!("line {i}"));
    }
    s.scroll_logs_up(50);
    let before = s.tasks.get("x").unwrap().scrollback;
    // Push 10 more lines — each evicts one.
    for i in 0..10 {
        push_log(&mut s, "x", &format!("evictor {i}"));
    }
    let after = s.tasks.get("x").unwrap().scrollback;
    assert_eq!(after, before.saturating_sub(10), "scrollback must slide with eviction");
    assert!(!s.tasks.get("x").unwrap().follow_tail, "follow_tail must stay off while user is scrolled up");
}

#[test]
fn request_rerun_sets_pending_when_run_is_finished() {
    let mut s = TuiState::new();
    s.apply(ev_run_started(vec![vec!["lint"]]));
    s.apply(ProgressEvent::RunFinished);
    assert!(s.run_finished);
    s.request_rerun("lint".to_string(), false);
    assert_eq!(
        s.pending_rerun,
        Some(RerunRequest { task: "lint".to_string(), force_all: false })
    );
}

#[test]
fn request_rerun_ignored_when_run_in_progress() {
    let mut s = TuiState::new();
    s.apply(ev_run_started(vec![vec!["lint"]]));
    // run_finished is still false
    s.request_rerun("lint".to_string(), true);
    assert!(s.pending_rerun.is_none(), "should not set pending_rerun while run is in progress");
}

#[test]
fn clear_selected_logs_only_clears_selected_task() {
    let mut s = TuiState::new();
    s.apply(ev_run_started(vec![vec!["a"], vec!["b"]]));
    s.apply(ProgressEvent::LogLine {
        task: "a".to_string(),
        stream: LogStream::Stdout,
        line: "alpha".into(),
    });
    s.apply(ProgressEvent::LogLine {
        task: "b".to_string(),
        stream: LogStream::Stdout,
        line: "beta".into(),
    });
    s.move_selection(1); // select "b"
    s.clear_selected_logs();
    assert_eq!(s.tasks.get("a").unwrap().logs.len(), 1);
    assert_eq!(s.tasks.get("b").unwrap().logs.len(), 0);
}

#[test]
fn scrolling_down_undoes_scrolling_up() {
    let mut s = TuiState::new();
    s.apply(ev_run_started(vec![vec!["a"]]));
    for i in 0..20 {
        push_log(&mut s, "a", &format!("line {i}"));
    }
    s.scroll_logs_up(4);
    s.scroll_logs_up(5);
    s.scroll_logs_down(5);
    assert_eq!(s.tasks.get("a").unwrap().scrollback, 4);
    s.scroll_logs_home();
    s.scroll_logs_down(100);
    let info = s.tasks.get("a").unwrap();
    assert_eq!(info.scrollback, 0);
    assert!(info.follow_tail);
}

#[test]
fn queued_phase_and_skipped_events_are_folded_in() {
    let mut s = TuiState::new();
    s.apply(ProgressEvent::TaskQueued { task: "late".to_string() });
    assert_eq!(s.task_order, vec!["late"]);
    assert_eq!(s.tasks.get("late").unwrap().state, TaskState::Queued);
    s.apply(ProgressEvent::TaskPhase {
        task: "late".to_string(),
        phase: TaskPhase { label: "Staging".to_string() },
        elapsed: Duration::from_millis(3),
    });
    let info = s.tasks.get("late").unwrap();
    assert_eq!(info.phase_count, 1);
    assert_eq!(info.duration, Duration::from_millis(3));
    assert_eq!(info.current_phase.as_ref().unwrap().label, "Staging");
    s.apply(ProgressEvent::TaskFinished {
        task: "late".to_string(),
        status: TaskStatus::Skipped,
        duration: Duration::zero(),
        error: None,
        cache_reasons: Vec::new(),
    });
    assert_eq!(s.tasks.get("late").unwrap().state, TaskState::Skipped);
    assert!(s.tasks.get("late").unwrap().current_phase.is_none());
    assert_eq!(s.done_count + s.cached_count + s.failed_count, 0);
}

fn build_task(command: &str, output: &str) -> TaskSpec {
    TaskSpec {
        deps: vec![],
        description: None,
        resolved_variables: TextMap::new(),
        inputs: vec!["src/input.txt".to_string()],
        stage_ro: vec![],
        outputs: vec![output.to_string()],
        env: TextMap::new(),
        env_inherit: vec![],
        secret_env: vec![],
        run: RunSpec::Shell(command.to_string()),
        isolation: Some(IsolationMode::Off),
        mode: None,
        working_dir: None,
        params: vec![],
        private: false,
        confirm: None,
        shell_override: None,
        requires: vec![],
    }
}

/// What a workspace whose command works answers to a task.
fn answer(call: TaskCall) -> TaskReply {
    match call {
        TaskCall::Fingerprint => TaskReply::Fingerprinted {
            fingerprint: "fp".to_string(),
            manifest: TextMap::new(),
        },
        TaskCall::FetchExecution => TaskReply::Fetched(None),
        TaskCall::FetchLatest => TaskReply::Latest(None),
        TaskCall::Restore => TaskReply::Restored,
        TaskCall::Stage => TaskReply::Ran(CommandOutput {
            success: true,
            status: "exit status: 0".to_string(),
            stdout: "TUI_MARKER_OUT\n".to_string(),
            stderr: "TUI_MARKER_ERR\n".to_string(),
        }),
        TaskCall::Promote => TaskReply::Promoted,
        TaskCall::StoreArtifacts => {
            TaskReply::Stored { artifacts: vec![], created_at: 1, duration_ms: 7 }
        }
        TaskCall::SaveExecution => TaskReply::Saved,
        TaskCall::Finished => unreachable!("a finished task asks for nothing"),
    }
}

fn push_lines(state: &mut TuiState, task: &str, stream: LogStream, text: &str) {
    for line in text.lines() {
        state.apply(ProgressEvent::LogLine {
            task: task.to_string(),
            stream,
            line: line.to_string(),
        });
    }
}

#[test]
fn executor_event_stream_folds_into_tui_state_with_logs() {
    let task = build_task(
        "mkdir -p dist && echo TUI_MARKER_OUT && echo TUI_MARKER_ERR 1>&2 && echo ok > dist/out.txt",
        "dist/out.txt",
    );
    let mut tasks = TextMap::new();
    tasks.insert("build", task);
    let graph = TaskGraph::build(&tasks).expect("graph");
    let options = RunOptions::default();
    let layers = run_plan(&graph, "build", &options, true, false).expect("plan");

    let mut state = TuiState::new();
    state.apply(ProgressEvent::RunStarted { target: "build".to_string(), layers: layers.clone() });
    for name in layers.iter().flatten() {
        let task = tasks.get(name).expect("task");
        state.apply(ProgressEvent::TaskStarted {
            task: name.clone(),
            mode: task.inferred_mode(),
        });
        let mut run = TaskRun::start(name, Some(task), &options);
        while run.call != TaskCall::Finished {
            let reply = answer(run.call);
            if let TaskReply::Ran(output) = &reply {
                push_lines(&mut state, name, LogStream::Stdout, &output.stdout);
                push_lines(&mut state, name, LogStream::Stderr, &output.stderr);
            }
            run.next(reply);
        }
        state.apply(ProgressEvent::TaskFinished {
            task: name.clone(),
            status: run.told.expect("a status"),
            duration: Duration::from_millis(7),
            error: run.outcome().err(),
            cache_reasons: Vec::new(),
        });
    }
    state.apply(ProgressEvent::RunFinished);

    assert_eq!(state.target.as_deref(), Some("build"));
    assert!(state.run_finished, "run_finished should be true once RunFinished arrives");
    assert_eq!(state.task_order, vec!["build"]);
    let info = state.tasks.get("build").expect("task info present");
    assert_eq!(info.state, TaskState::Done);
    assert_eq!(state.done_count, 1);
    assert_eq!(state.failed_count, 0);
    assert!(info.logs.iter().any(|r| r.line.contains("TUI_MARKER_OUT")));
    assert!(info.logs.iter().any(|r| r.line.contains("TUI_MARKER_ERR")));
}

#[test]
fn scrolling_up_by_nothing_changes_nothing() {
    let mut s = TuiState::new();
    s.apply(ev_run_started(vec![vec!["a"]]));
    s.scroll_logs_home();
    assert!(!s.tasks.get("a").unwrap().follow_tail);
    s.scroll_logs_up(0);
    assert!(!s.tasks.get("a").unwrap().follow_tail);
    assert_eq!(s.tasks.get("a").unwrap().scrollback, 0);
    s.scroll_logs_end();
    s.scroll_logs_up(0);
    assert!(s.tasks.get("a").unwrap().follow_tail);
}

#[test]
fn selection_moves_as_far_as_it_can() {
    let mut s = TuiState::new();
    s.move_selection(i32::MAX);
    assert_eq!(s.selected, None);
    s.apply(ev_run_started(vec![vec!["a"], vec!["b"], vec!["c"]]));
    s.move_selection(1);
    s.move_selection(i32::MAX);
    assert_eq!(s.selected, Some(2));
    s.move_selection(i32::MIN);
    assert_eq!(s.selected, Some(0));
}

#[test]
fn counters_follow_the_events_of_a_run() {
    let mut s = TuiState::new();
    s.apply(ev_run_started(vec![vec!["a", "b"], vec!["c", "d"]]));
    let statuses = [
        ("a", TaskStatus::Executed),
        ("b", TaskStatus::CacheHit),
        ("c", TaskStatus::Failed),
        ("d", TaskStatus::Executed),
    ];
    for (task, _) in &statuses {
        s.apply(ProgressEvent::TaskStarted { task: task.to_string(), mode: TaskMode::Graph });
    }
    assert_eq!(s.running_count, 4);
    for (task, status) in statuses {
        s.apply(ProgressEvent::TaskFinished {
            task: task.to_string(),
            status,
            duration: Duration::zero(),
            error: None,
            cache_reasons: Vec::new(),
        });
    }
    assert_eq!(s.running_count, 0);
    assert_eq!((s.done_count, s.cached_count, s.failed_count), (2, 1, 1));
}
