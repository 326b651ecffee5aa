use broski::executor::{RunSummary, TaskOutcome};
use broski::explain::{describe_manifest_change, explain_cache_miss, explain_manifest_delta};
use broski::report::emit_run_summary;
use broski::text_map::TextMap;

fn manifest(pairs: &[(&str, &str)]) -> TextMap<String> {
    let mut map = TextMap::new();
    for (key, value) in pairs {
        map.insert(key, value.to_string());
    }
    map
}

/// What is printed of a task that ran for these reasons.
fn printed(task: &str, reasons: Vec<String>) -> Vec<String> {
    let mut summary = RunSummary::new();
    summary.absorb(TaskOutcome {
        task_name: task.to_string(),
        from_cache: false,
        dry_run: false,
        cache_miss_reasons: reasons,
    });
    emit_run_summary(&summary, true)
}

#[test]
fn test_explain_shows_first_run_reason() {
    let current = manifest(&[("input:src/input.txt", "v1")]);
    let lines = printed("process", explain_cache_miss(false, false, None, &current));
    assert!(lines.contains(&"explain process:".to_string()));
    assert!(lines.iter().any(|l| l.contains("cache miss: no prior execution record")));
}

#[test]
fn test_explain_shows_input_change_reason() {
    let previous = manifest(&[("input:src/input.txt", "v1")]);
    let current = manifest(&[("input:src/input.txt", "v2")]);
    let lines = printed("process", explain_cache_miss(false, false, Some(&previous), &current));
    assert!(lines.iter().any(|l| l.contains("cache miss: input changed: src/input.txt")));
}

#[test]
fn test_explain_shows_force_and_no_cache_bypass_reasons() {
    let current = manifest(&[("input:src/input.txt", "v1")]);
    let lines = printed("process", explain_cache_miss(true, false, None, &current));
    assert!(lines.iter().any(|l| l.contains("cache bypass: --force supplied")));

    let lines = printed("process", explain_cache_miss(false, true, None, &current));
    assert!(lines.iter().any(|l| l.contains("cache bypass: --no-cache supplied")));
}

#[test]
fn test_explain_shows_command_change_reason() {
    let previous = manifest(&[("task:run", "cat src/input.txt > dist/out.txt")]);
    let current = manifest(&[("task:run", "cp src/input.txt dist/out.txt")]);
    let lines = printed("process", explain_cache_miss(false, false, Some(&previous), &current));
    assert!(lines.iter().any(|l| l.contains("cache miss: task command changed")));
}

#[test]
fn test_explain_shows_env_change_reason() {
    let previous = manifest(&[("env:MODE", "a")]);
    let current = manifest(&[("env:MODE", "b")]);
    let lines = printed("process", explain_cache_miss(false, false, Some(&previous), &current));
    assert!(lines.iter().any(|l| l.contains("cache miss: env changed: MODE")));
}

#[test]
fn explain_manifest_delta_reports_changes() {
    let previous = manifest(&[("input:src/input.txt", "a"), ("env:MODE", "a")]);
    let current = manifest(&[
        ("input:src/input.txt", "b"),
        ("env:MODE", "a"),
        ("output:dist/out.txt", "x"),
    ]);

    let reasons = explain_manifest_delta(&previous, &current);
    assert!(reasons.iter().any(|r| r.contains("input changed: src/input.txt")));
    assert!(reasons.iter().any(|r| r.contains("output contract added: dist/out.txt")));
    assert_eq!(reasons.len(), 2);
}

#[test]
fn every_change_is_told_in_key_order() {
    let previous = manifest(&[("env:A", "1"), ("input:x", "1"), ("task:run", "1")]);
    let current = manifest(&[("dep:d", "1"), ("input:x", "2"), ("task:run", "1")]);
    let reasons = explain_manifest_delta(&previous, &current);
    assert_eq!(reasons.len(), 3);
    assert_eq!(reasons[0], describe_manifest_change("added", "dep:d"));
    assert_eq!(reasons[1], describe_manifest_change("removed", "env:A"));
    assert_eq!(reasons[2], describe_manifest_change("changed", "input:x"));
}

#[test]
fn equal_manifests_explain_nothing_new() {
    let same = manifest(&[("env:A", "1")]);
    assert!(explain_manifest_delta(&same, &same).is_empty());
    let reasons = explain_cache_miss(false, false, Some(&same), &same);
    assert_eq!(reasons, vec!["cache miss: fingerprint changed"]);
}

#[test]
fn forcing_is_told_before_all_else() {
    let current = manifest(&[]);
    let reasons = explain_cache_miss(true, true, Some(&current), &current);
    assert_eq!(reasons, vec!["cache bypass: --force supplied"]);
}

#[test]
fn each_kind_of_key_has_its_own_words() {
    let told = |key: &str| describe_manifest_change("changed", key);
    assert_eq!(told("input_pattern:src/**"), "cache miss: input pattern changed: src/**");
    assert_eq!(told("task:isolation"), "cache miss: isolation mode changed");
    assert_eq!(told("task:name:x"), "cache miss: task identity changed");
    assert_eq!(told("task:run"), "cache miss: task command changed");
    assert_eq!(told("task:runs"), "cache miss: task:runs changed");
    assert_eq!(told(""), "cache miss:  changed");
}
