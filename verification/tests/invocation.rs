use broski::executor::RunOptions;
use broski::invocation::{
    effective_repair, parse_implicit_task_args, resolve_theme, run_options, run_options_over,
    tui_conflict, InvocationError, RunFlags,
};
use broski::theme::Theme;

fn words(list: &[&str]) -> Vec<String> {
    list.iter().map(|w| w.to_string()).collect()
}

fn no_flags() -> RunFlags {
    RunFlags {
        dry_run: false,
        explain: false,
        force: false,
        no_cache: false,
        watch: false,
        force_isolation: false,
        jobs: None,
        args: vec![],
    }
}

#[test]
fn doctor_defaults_to_repair_enabled() {
    assert!(effective_repair(false, false));
}

#[test]
fn parses_implicit_task_invocation() {
    let parsed = parse_implicit_task_args(words(&["build"])).expect("normalized args");
    assert_eq!(parsed.task, "build");
    assert!(parsed.args.is_empty());
}

#[test]
fn parses_implicit_task_with_passthrough() {
    let raw = words(&["test", "--", "--grep", "slow"]);
    let parsed = parse_implicit_task_args(raw).expect("normalized args");
    assert_eq!(parsed.task, "test");
    assert!(!parsed.watch);
    assert_eq!(parsed.args, vec!["--grep", "slow"]);
}

#[test]
fn parses_implicit_task_explain_and_dry_run_flags() {
    let raw = words(&["setup", "--explain", "--dry-run"]);
    let parsed = parse_implicit_task_args(raw).expect("normalized args");
    assert_eq!(parsed.task, "setup");
    assert!(parsed.explain);
    assert!(parsed.dry_run);
    assert!(parsed.args.is_empty());
}

#[test]
fn implicit_passthrough_separator_keeps_broski_flags_as_task_args() {
    let raw = words(&["setup", "--", "--explain", "--dry-run"]);
    let parsed = parse_implicit_task_args(raw).expect("normalized args");
    assert!(!parsed.explain);
    assert!(!parsed.dry_run);
    assert_eq!(parsed.args, vec!["--explain", "--dry-run"]);
}

#[test]
fn parses_implicit_task_jobs_equals_form() {
    let parsed = parse_implicit_task_args(words(&["test", "--jobs=4"])).expect("normalized args");
    assert_eq!(parsed.jobs, Some(4));
}

#[test]
fn rejects_implicit_task_jobs_space_form() {
    let error =
        parse_implicit_task_args(words(&["test", "--jobs", "4"])).expect_err("jobs should fail");
    assert!(error.message().contains("--jobs=<n>"));
}

#[test]
fn parses_implicit_task_watch_flag() {
    let parsed = parse_implicit_task_args(words(&["test", "--watch"])).expect("normalized args");
    assert_eq!(parsed.task, "test");
    assert!(parsed.watch);
    assert!(parsed.args.is_empty());
}

#[test]
fn every_error_of_an_invocation_is_reached() {
    assert_eq!(parse_implicit_task_args(vec![]).unwrap_err(), InvocationError::NoTask);
    assert_eq!(
        parse_implicit_task_args(words(&["t", "--jobs=x"])).unwrap_err(),
        InvocationError::BadJobs { value: "x".to_string() }
    );
    assert_eq!(
        parse_implicit_task_args(words(&["t", "--jobs"])).unwrap_err(),
        InvocationError::JobsNotJoined { task: "t".to_string() }
    );
}

#[test]
fn separator_passes_all_later_words_on() {
    let raw = words(&["t", "--force", "a", "--", "--force", "--", "--jobs"]);
    let parsed = parse_implicit_task_args(raw).expect("normalized args");
    assert!(parsed.force);
    // A second separator is no word of the task's.
    assert_eq!(parsed.args, vec!["a", "--force", "--jobs"]);
}

#[test]
fn remaining_flags_are_read() {
    let raw = words(&["t", "--no-cache", "--force-isolation", "-x", "--jobs=+7"]);
    let parsed = parse_implicit_task_args(raw).expect("normalized args");
    assert!(parsed.no_cache);
    assert!(parsed.force_isolation);
    assert_eq!(parsed.jobs, Some(7));
    assert_eq!(parsed.args, vec!["-x"]);
    let options = run_options(parsed.flags());
    assert_eq!(options.jobs, 7);
    assert!(options.no_cache && options.force_isolation);
    assert_eq!(options.passthrough_args, vec!["-x"]);
}

#[test]
fn jobs_fall_back_to_the_processors() {
    let options = run_options(no_flags());
    assert!(options.jobs >= 1);
    assert_eq!(options.jobs, num_cpus::get());
    assert_eq!(RunOptions::default().jobs, num_cpus::get().max(1));
    assert_eq!(run_options(RunFlags { jobs: Some(0), ..no_flags() }).jobs, 1);
    assert_eq!(run_options_over(RunOptions::for_cpus(6), no_flags()).jobs, 6);
}

#[test]
fn dashboard_refuses_what_it_cannot_show() {
    assert_eq!(tui_conflict(&no_flags()), None);
    assert!(tui_conflict(&RunFlags { watch: true, ..no_flags() }).is_some());
    assert!(!effective_repair(false, true));
    assert!(effective_repair(true, true));
}

#[test]
fn theme_flag_wins_over_the_environment() {
    assert_eq!(resolve_theme(Some("dark"), Some("light")), Ok(Theme::Dark));
    assert_eq!(resolve_theme(None, Some("light")), Ok(Theme::Light));
    assert_eq!(resolve_theme(None, Some("  ")), Ok(Theme::Default));
    assert_eq!(resolve_theme(None, None), Ok(Theme::Default));
    assert_eq!(
        resolve_theme(None, Some("Neon")).unwrap_err(),
        "parsing BROSKI_THEME value 'Neon': unknown theme 'neon'; expected one of default, dark, light, high-contrast, auto"
    );
}
