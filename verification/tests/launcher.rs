use broski::launcher::{
    filter_needle, LauncherAction, LauncherDecision, LauncherState, ParsedCommand, RunOutcome,
};
use broski::time::{format_dur, Duration};


fn s(slice: &[&str]) -> Vec<String> {
    slice.iter().map(|x| (*x).to_string()).collect()
}

#[test]
fn empty_input_lists_all_tasks_in_order() {
    let l = LauncherState::new(s(&["fmt", "lint", "test"]));
    assert_eq!(l.filtered_tasks(), vec!["fmt", "lint", "test"]);
    assert_eq!(l.selected, Some(0));
}

#[test]
fn empty_state_with_no_tasks_has_no_selection() {
    let l = LauncherState::new(vec![]);
    assert_eq!(l.selected, None);
    assert!(l.filtered_tasks().is_empty());
}

#[test]
fn typing_filters_case_insensitively() {
    let mut l = LauncherState::new(s(&["fmt", "lint", "test", "FormatDocs"]));
    l.apply(LauncherAction::InsertChar('f'));
    let filtered = l.filtered_tasks();
    assert_eq!(filtered, vec!["fmt", "FormatDocs"]);
}

#[test]
fn backspace_widens_filter() {
    let mut l = LauncherState::new(s(&["fmt", "lint"]));
    l.apply(LauncherAction::InsertChar('f'));
    l.apply(LauncherAction::InsertChar('m'));
    assert_eq!(l.filtered_tasks(), vec!["fmt"]);
    l.apply(LauncherAction::Backspace);
    assert_eq!(l.filtered_tasks(), vec!["fmt"]);
    l.apply(LauncherAction::Backspace);
    assert_eq!(l.filtered_tasks(), vec!["fmt", "lint"]);
}

#[test]
fn up_and_down_wrap_around() {
    let mut l = LauncherState::new(s(&["a", "b", "c"]));
    l.apply(LauncherAction::Down);
    assert_eq!(l.selected, Some(1));
    l.apply(LauncherAction::Down);
    assert_eq!(l.selected, Some(2));
    l.apply(LauncherAction::Down);
    assert_eq!(l.selected, Some(0));
    l.apply(LauncherAction::Up);
    assert_eq!(l.selected, Some(2));
}

#[test]
fn home_and_end_jump_to_bounds() {
    let mut l = LauncherState::new(s(&["a", "b", "c"]));
    l.apply(LauncherAction::Down);
    l.apply(LauncherAction::End);
    assert_eq!(l.selected, Some(2));
    l.apply(LauncherAction::Home);
    assert_eq!(l.selected, Some(0));
}

#[test]
fn selection_reclamps_when_filter_shrinks_list() {
    let mut l = LauncherState::new(s(&["fmt", "lint", "test"]));
    l.apply(LauncherAction::Down);
    l.apply(LauncherAction::Down); // selected = 2 (test)
    l.apply(LauncherAction::InsertChar('f')); // now only "fmt"
    assert_eq!(l.filtered_tasks(), vec!["fmt"]);
    assert_eq!(l.selected, Some(0));
}

#[test]
fn empty_input_with_selection_dispatches_highlighted_task() {
    let mut l = LauncherState::new(s(&["fmt", "lint"]));
    l.apply(LauncherAction::Down); // highlight "lint"
    let decision = l.apply(LauncherAction::Enter);
    assert_eq!(
        decision,
        LauncherDecision::Run(ParsedCommand { target: "lint".into(), passthrough: vec![] })
    );
}

#[test]
fn explicit_target_wins_over_highlight() {
    let mut l = LauncherState::new(s(&["fmt", "lint"]));
    l.apply(LauncherAction::InsertChar('l'));
    l.apply(LauncherAction::InsertChar('i'));
    l.apply(LauncherAction::InsertChar('n'));
    l.apply(LauncherAction::InsertChar('t'));
    let decision = l.apply(LauncherAction::Enter);
    assert_eq!(
        decision,
        LauncherDecision::Run(ParsedCommand { target: "lint".into(), passthrough: vec![] })
    );
}

#[test]
fn enter_on_unknown_target_with_no_filter_match_stays_with_status_message() {
    let mut l = LauncherState::new(s(&["fmt"]));
    for c in "nope".chars() {
        l.apply(LauncherAction::InsertChar(c));
    }
    let decision = l.apply(LauncherAction::Enter);
    assert_eq!(decision, LauncherDecision::Continue);
    assert!(l.status.as_deref().unwrap_or("").contains("no task matches"));
}

#[test]
fn enter_on_partial_input_falls_back_to_highlighted_task() {
    let mut l = LauncherState::new(s(&["fmt", "lint", "test"]));
    // Typed 'te' filters to ["test"], highlighted is "test".
    l.apply(LauncherAction::InsertChar('t'));
    l.apply(LauncherAction::InsertChar('e'));
    let decision = l.apply(LauncherAction::Enter);
    assert_eq!(
        decision,
        LauncherDecision::Run(ParsedCommand { target: "test".into(), passthrough: vec![] })
    );
}

#[test]
fn enter_on_partial_input_with_passthrough_preserves_args() {
    let mut l = LauncherState::new(s(&["test"]));
    for c in "te -- --grep slow".chars() {
        l.apply(LauncherAction::InsertChar(c));
    }
    let decision = l.apply(LauncherAction::Enter);
    assert_eq!(
        decision,
        LauncherDecision::Run(ParsedCommand {
            target: "test".into(),
            passthrough: vec!["--grep".into(), "slow".into()],
        })
    );
}

#[test]
fn enter_with_double_dash_extracts_passthrough() {
    let mut l = LauncherState::new(s(&["test"]));
    for c in "test -- --grep slow".chars() {
        l.apply(LauncherAction::InsertChar(c));
    }
    let decision = l.apply(LauncherAction::Enter);
    assert_eq!(
        decision,
        LauncherDecision::Run(ParsedCommand {
            target: "test".into(),
            passthrough: vec!["--grep".into(), "slow".into()],
        })
    );
}

#[test]
fn enter_with_inline_args_collects_them() {
    let mut l = LauncherState::new(s(&["serve"]));
    for c in "serve --port 8080".chars() {
        l.apply(LauncherAction::InsertChar(c));
    }
    let decision = l.apply(LauncherAction::Enter);
    assert_eq!(
        decision,
        LauncherDecision::Run(ParsedCommand {
            target: "serve".into(),
            passthrough: vec!["--port".into(), "8080".into()],
        })
    );
}

#[test]
fn enter_with_only_whitespace_input_and_no_selection_does_not_run() {
    let mut l = LauncherState::new(vec![]);
    for c in "   ".chars() {
        l.apply(LauncherAction::InsertChar(c));
    }
    assert_eq!(l.apply(LauncherAction::Enter), LauncherDecision::Continue);
    assert!(l.status.is_some());
}

#[test]
fn quit_action_quits_only_when_input_is_empty() {
    let mut l = LauncherState::new(s(&["fmt"]));
    l.apply(LauncherAction::InsertChar('f'));
    // 'q' typed while input has content shouldn't quit; we treat Quit as
    // "clear the buffer first".
    let dec = l.apply(LauncherAction::Quit);
    assert_eq!(dec, LauncherDecision::Continue);
    assert!(l.input.is_empty());
    // Now input is empty, Quit really quits.
    let dec = l.apply(LauncherAction::Quit);
    assert_eq!(dec, LauncherDecision::Quit);
}

#[test]
fn clear_input_drops_typed_text_but_keeps_screen() {
    let mut l = LauncherState::new(s(&["fmt", "lint"]));
    l.apply(LauncherAction::InsertChar('f'));
    l.apply(LauncherAction::InsertChar('m'));
    let dec = l.apply(LauncherAction::ClearInput);
    assert_eq!(dec, LauncherDecision::Continue);
    assert!(l.input.is_empty());
    assert_eq!(l.filtered_tasks(), vec!["fmt", "lint"]);
}

#[test]
fn complete_replaces_input_with_highlighted_task_name() {
    let mut l = LauncherState::new(s(&["fmt", "lint"]));
    l.apply(LauncherAction::InsertChar('l'));
    l.apply(LauncherAction::Complete);
    assert_eq!(l.input, "lint");
}

#[test]
fn record_run_pushes_entry_to_front_and_caps_at_16() {
    let mut l = LauncherState::new(s(&["t"]));
    for i in 0..20 {
        l.record_run(format!("t{}", i), RunOutcome::Success, Duration::from_millis(10));
    }
    assert_eq!(l.history.len(), 16);
    assert_eq!(l.history[0].target, "t19");
    assert_eq!(l.history[15].target, "t4");
}

#[test]
fn record_run_clears_input_and_sets_status_banner() {
    let mut l = LauncherState::new(s(&["fmt"]));
    l.apply(LauncherAction::InsertChar('f'));
    l.record_run("fmt".into(), RunOutcome::Success, Duration::from_millis(120));
    assert!(l.input.is_empty());
    let s = l.status.as_deref().unwrap();
    assert!(s.contains("ran fmt"));
    assert!(s.contains("120ms"));
}

#[test]
fn status_banner_clears_on_next_user_action() {
    let mut l = LauncherState::new(s(&["fmt"]));
    l.record_run("fmt".into(), RunOutcome::Success, Duration::from_millis(50));
    assert!(l.status.is_some());
    l.apply(LauncherAction::InsertChar('x'));
    assert!(l.status.is_none());
}

#[test]
fn duration_formatting_handles_ms_seconds_and_minutes() {
    assert_eq!(format_dur(Duration::from_millis(500)), "500ms");
    assert_eq!(format_dur(Duration::from_millis(1_500)), "1.5s");
    assert_eq!(format_dur(Duration::from_secs(125)), "2m5s");
}

#[test]
fn filter_needle_strips_passthrough_segment() {
    assert_eq!(filter_needle("test -- --grep slow"), "test");
    assert_eq!(filter_needle("  fmt  "), "fmt");
    assert_eq!(filter_needle("--all"), "--all");
}

#[test]
fn enter_without_input_or_tasks_asks_for_a_name() {
    let mut l = LauncherState::new(vec![]);
    assert_eq!(l.apply(LauncherAction::Enter), LauncherDecision::Continue);
    assert_eq!(l.status.as_deref(), Some("type a task name or pick one with ↑/↓"));
}

#[test]
fn unknown_target_message_names_the_target() {
    let mut l = LauncherState::new(s(&["fmt"]));
    for c in "nope x".chars() {
        l.apply(LauncherAction::InsertChar(c));
    }
    l.apply(LauncherAction::Enter);
    assert_eq!(l.status.as_deref(), Some("no task matches 'nope' — pick one from the list"));
}

#[test]
fn ignored_action_keeps_the_message() {
    let mut l = LauncherState::new(s(&["fmt"]));
    l.record_run("fmt".into(), RunOutcome::Failed, Duration::from_secs(61));
    assert_eq!(l.status.as_deref(), Some("failed fmt in 1m1s"));
    l.apply(LauncherAction::Ignore);
    assert!(l.status.is_some());
}

#[test]
fn highlight_stays_within_the_list() {
    let mut l = LauncherState::new(s(&["alpha", "beta", "gamma"]));
    let actions = [
        LauncherAction::End,
        LauncherAction::InsertChar('a'),
        LauncherAction::Down,
        LauncherAction::InsertChar('z'),
        LauncherAction::Up,
        LauncherAction::Backspace,
        LauncherAction::Complete,
        LauncherAction::ClearInput,
        LauncherAction::Up,
    ];
    for action in actions {
        l.apply(action);
        let listed = l.filtered_tasks().len();
        match l.selected {
            Some(i) => assert!(i < listed),
            None => assert_eq!(listed, 0),
        }
    }
}

#[test]
fn only_listed_tasks_are_run() {
    let mut l = LauncherState::new(s(&["fmt", "lint"]));
    for c in "FM now".chars() {
        l.apply(LauncherAction::InsertChar(c));
    }
    assert!(l.filtered_tasks().is_empty());
    assert_eq!(l.apply(LauncherAction::Enter), LauncherDecision::Continue);
    l.apply(LauncherAction::ClearInput);
    for c in "FM".chars() {
        l.apply(LauncherAction::InsertChar(c));
    }
    match l.apply(LauncherAction::Enter) {
        LauncherDecision::Run(cmd) => assert_eq!(cmd.target, "fmt"),
        other => panic!("expected a run, got {:?}", other),
    }
}

#[test]
fn typed_text_is_a_command() {
    assert_eq!(typed(&[], " -- x ").parse_command(), None);
    let cmd = typed(&["fmt"], " -- x ").parse_command().expect("a command");
    assert_eq!(cmd.target, "fmt");
    assert_eq!(cmd.passthrough, vec!["x"]);
    let cmd = typed(&[], "odd one").parse_command().expect("a command");
    assert_eq!(cmd.target, "odd");
    assert_eq!(cmd.passthrough, vec!["one"]);
}

#[test]
fn replaced_tasks_keep_the_highlight_in_range() {
    let mut l = LauncherState::new(s(&["a", "b", "c"]));
    l.apply(LauncherAction::End);
    l.replace_tasks(s(&["x"]));
    assert_eq!(l.selected, Some(0));
    assert_eq!(l.highlighted_task(), Some("x"));
    l.replace_tasks(vec![]);
    assert_eq!(l.selected, None);
    l.record_status("hello".to_string());
    assert_eq!(l.status.as_deref(), Some("hello"));
}

fn typed(tasks: &[&str], text: &str) -> LauncherState {
    let mut l = LauncherState::new(s(tasks));
    for c in text.chars() {
        l.apply(LauncherAction::InsertChar(c));
    }
    l
}

#[test]
fn arguments_do_not_filter_the_tasks() {
    assert_eq!(typed(&["fmt", "test"], "test --").filtered_tasks(), vec!["test"]);
    assert_eq!(typed(&["fmt", "test"], "test -- --nocapture").filtered_tasks(), vec!["test"]);
    assert_eq!(typed(&["fmt", "test"], "-- x").filtered_tasks(), vec!["fmt", "test"]);
    assert_eq!(typed(&["fmt", "test-all"], "-a").filtered_tasks(), vec!["test-all"]);
    assert!(typed(&["fmt", "test"], "test --all").filtered_tasks().is_empty());
    assert_eq!(typed(&["a--b"], "a--b").filtered_tasks(), vec!["a--b"]);
    assert_eq!(filter_needle("  Test  -- Fast"), "Test");
}

#[test]
fn arguments_are_handed_to_the_filtered_task() {
    let mut l = typed(&["fmt", "test"], "test -- --nocapture");
    assert_eq!(
        l.apply(LauncherAction::Enter),
        LauncherDecision::Run(ParsedCommand {
            target: "test".to_string(),
            passthrough: s(&["--nocapture"]),
        })
    );
    let mut l = typed(&["fmt", "test"], "-- x y");
    l.apply(LauncherAction::Down);
    assert_eq!(
        l.apply(LauncherAction::Enter),
        LauncherDecision::Run(ParsedCommand {
            target: "test".to_string(),
            passthrough: s(&["x", "y"]),
        })
    );
}
