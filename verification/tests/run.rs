use broski::command::{selected_isolation, task_command, CommandError};
use broski::event::{TaskMode, TaskStatus};
use broski::executor::{
    normalize_outputs, run_plan, RunError, RunOptions, RunSummary, TaskOutcome,
};
use broski::graph::{required_tasks, GraphError, TaskGraph};
use broski::model::{BroskiFile, BroskiSection, IsolationMode, RunSpec, TaskSpec};
use broski::paths::{join_paths, normalize_artifact_relative_path, PathError};
use broski::promotion::{Place, PromoteCall, PromoteReply, Promotion};
use broski::staging::{
    is_reflink_unsupported, places_of, should_include, snapshot_step, tree_step,
    uncopyable_message, CopyStep, EntryKind,
};
use broski::store::ExecutionRecord;
use broski::task_run::{CommandOutput, TaskCall, TaskEnd, TaskReply, TaskRun};
use broski::text_map::TextMap;

fn texts(list: &[&str]) -> Vec<String> {
    list.iter().map(|w| w.to_string()).collect()
}

fn simple_task(command: &str) -> TaskSpec {
    TaskSpec {
        deps: vec![],
        description: None,
        resolved_variables: TextMap::new(),
        inputs: texts(&["src/input.txt"]),
        stage_ro: vec![],
        outputs: texts(&["dist/output.txt"]),
        env: TextMap::new(),
        env_inherit: vec![],
        secret_env: vec![],
        run: RunSpec::Shell(command.to_string()),
        isolation: Some(IsolationMode::BestEffort),
        mode: None,
        working_dir: None,
        params: vec![],
        private: false,
        confirm: None,
        shell_override: None,
        requires: vec![],
    }
}

fn after(deps: &[&str]) -> TaskSpec {
    TaskSpec { deps: texts(deps), ..simple_task("true") }
}

fn graph_of(tasks: &[(&str, &[&str])]) -> Result<TaskGraph, GraphError> {
    let mut map = TextMap::new();
    for (name, deps) in tasks {
        map.insert(name, after(deps));
    }
    TaskGraph::build(&map)
}

fn ran(success: bool) -> TaskReply {
    TaskReply::Ran(CommandOutput {
        success,
        status: "exit status: 42".to_string(),
        stdout: "out".to_string(),
        stderr: "err".to_string(),
    })
}

fn fingerprinted() -> TaskReply {
    let mut manifest = TextMap::new();
    manifest.insert("task:run", "true".to_string());
    TaskReply::Fingerprinted { fingerprint: "fp".to_string(), manifest }
}

fn started(options: &RunOptions) -> TaskRun {
    let task = simple_task("echo broken > dist/output.txt && exit 42");
    TaskRun::start("build", Some(&task), options)
}

#[test]
fn failure_does_not_promote_partial_outputs() {
    let mut run = started(&RunOptions::default());
    run.next(fingerprinted());
    assert_eq!(run.call, TaskCall::FetchExecution);
    run.next(TaskReply::Fetched(None));
    assert_eq!(run.call, TaskCall::Stage);
    run.next(ran(false));
    assert_eq!(run.call, TaskCall::Finished);
    assert_eq!(run.told, Some(TaskStatus::Failed));
    let error = run.outcome().unwrap_err();
    assert_eq!(
        error,
        "task 'build' failed with status exit status: 42\nstdout:\nout\nstderr:\nerr"
    );
}

#[test]
fn force_isolation_fails_on_non_linux() {
    let graph = graph_of(&[("build", &[])]).expect("graph");
    let options = RunOptions { force_isolation: true, ..RunOptions::default() };
    let result = run_plan(&graph, "build", &options, false, true);
    assert_eq!(result.unwrap_err(), RunError::SandboxUnsupported);
}

#[test]
fn a_run_is_refused_without_its_sandbox_or_target() {
    let graph = graph_of(&[("build", &[])]).expect("graph");
    let options = RunOptions { force_isolation: true, ..RunOptions::default() };
    assert_eq!(
        run_plan(&graph, "build", &options, true, false).unwrap_err(),
        RunError::SandboxMissing
    );
    assert!(run_plan(&graph, "build", &options, true, true).is_ok());
    let plain = RunOptions::default();
    let error = run_plan(&graph, "ghost", &plain, false, false).unwrap_err();
    assert_eq!(error, RunError::Graph(GraphError::UnknownTask { task: "ghost".to_string() }));
    assert!(error.message().contains("ghost"));
}

#[test]
fn successful_run_ends_with_its_record() {
    let options = RunOptions { explain: true, ..RunOptions::default() };
    let mut run = started(&options);
    assert_eq!(run.call, TaskCall::Fingerprint);
    run.next(fingerprinted());
    run.next(TaskReply::Fetched(None));
    assert_eq!(run.call, TaskCall::FetchLatest);
    run.next(TaskReply::Latest(None));
    assert_eq!(run.call, TaskCall::Stage);
    run.next(ran(true));
    assert_eq!(run.call, TaskCall::Promote);
    run.next(TaskReply::Promoted);
    assert_eq!(run.call, TaskCall::StoreArtifacts);
    run.next(TaskReply::Stored { artifacts: vec![], created_at: 5, duration_ms: 6 });
    assert_eq!(run.call, TaskCall::SaveExecution);
    let record = run.record.clone().expect("record");
    assert_eq!(record.task_name, "build");
    assert_eq!(record.fingerprint, "fp");
    assert_eq!(record.manifest.get("task:run"), Some(&"true".to_string()));
    assert_eq!((record.stdout.as_str(), record.stderr.as_str()), ("out", "err"));
    assert_eq!((record.created_at, record.duration_ms), (5, 6));
    run.next(TaskReply::Saved);
    assert_eq!(run.told, Some(TaskStatus::Executed));
    let outcome = run.outcome().expect("outcome");
    assert!(!outcome.from_cache && !outcome.dry_run);
    assert_eq!(outcome.cache_miss_reasons, vec!["cache miss: no prior execution record"]);
}

fn stored() -> ExecutionRecord {
    ExecutionRecord {
        task_name: "build".to_string(),
        fingerprint: "fp".to_string(),
        manifest: TextMap::new(),
        artifacts: vec![],
        stdout: String::new(),
        stderr: String::new(),
        created_at: 1,
        duration_ms: 1,
    }
}

#[test]
fn a_cache_hit_runs_nothing() {
    let mut run = started(&RunOptions::default());
    run.next(fingerprinted());
    run.next(TaskReply::Fetched(Some(stored())));
    assert_eq!(run.call, TaskCall::Restore);
    let mut failed = run.clone();
    run.next(TaskReply::Restored);
    assert_eq!(run.call, TaskCall::Finished);
    assert_eq!(run.told, Some(TaskStatus::CacheHit));
    assert!(run.outcome().expect("outcome").from_cache);

    failed.next(TaskReply::Failed("gone".to_string()));
    let error = failed.outcome().unwrap_err();
    assert_eq!(error, "restoring cache hit for task 'build': gone");
}

#[test]
fn forced_dry_and_uncached_runs_take_their_own_ways() {
    let forced = RunOptions { force_tasks: texts(&["build"]), ..RunOptions::default() };
    let mut run = started(&forced);
    run.next(fingerprinted());
    assert_eq!(run.call, TaskCall::Stage);

    let other = RunOptions { force_tasks: texts(&["other"]), ..RunOptions::default() };
    let mut run = started(&other);
    run.next(fingerprinted());
    assert_eq!(run.call, TaskCall::FetchExecution);

    let dry = RunOptions { dry_run: true, force: true, ..RunOptions::default() };
    let mut run = started(&dry);
    run.next(fingerprinted());
    assert_eq!(run.told, Some(TaskStatus::DryRun));
    assert!(run.outcome().expect("outcome").dry_run);

    let uncached = RunOptions { no_cache: true, ..RunOptions::default() };
    let mut run = started(&uncached);
    run.next(fingerprinted());
    run.next(ran(true));
    run.next(TaskReply::Promoted);
    assert_eq!(run.call, TaskCall::Finished);
    assert!(matches!(run.end, TaskEnd::Done { from_cache: false, dry_run: false }));
}

#[test]
fn unknown_tasks_and_bad_outputs_fail_at_once() {
    let options = RunOptions::default();
    let run = TaskRun::start("ghost", None, &options);
    assert_eq!(run.call, TaskCall::Finished);
    assert_eq!(run.outcome().unwrap_err(), "task 'ghost' not found");
    let bad = TaskSpec { outputs: texts(&["/etc/x"]), ..simple_task("true") };
    assert!(TaskRun::start("bad", Some(&bad), &options).outcome().is_err());
    assert_eq!(normalize_outputs(&bad).unwrap_err().cause, PathError::Absolute);
    let good = TaskSpec { outputs: texts(&["./a//b", "c"]), ..simple_task("true") };
    assert_eq!(normalize_outputs(&good).expect("outputs"), texts(&["a/b", "c"]));
}

/// Files as a promotion sees them: what stands at each path.
struct Disk {
    at: TextMap<Option<String>>,
    broken: Option<PromoteCall>,
}

impl Disk {
    fn get(&self, path: &str) -> Option<String> {
        self.at.get(path).and_then(|held| held.clone())
    }

    fn set(&mut self, path: &str, held: Option<String>) {
        self.at.insert(path, held);
    }

    fn answer(&mut self, promotion: &Promotion) -> PromoteReply {
        let place = |i: usize| promotion.places[i].clone();
        if self.broken == Some(promotion.call) {
            return PromoteReply::Failed("disk full".to_string());
        }
        match promotion.call {
            PromoteCall::LookStaged(i) => {
                return PromoteReply::Present(self.get(&place(i).staged).is_some());
            }
            PromoteCall::LookDestination(i) => {
                return PromoteReply::Present(self.get(&place(i).destination).is_some());
            }
            PromoteCall::BackUp(i) => {
                let held = self.get(&place(i).destination);
                self.set(&place(i).backup, held);
                self.set(&place(i).destination, None);
            }
            PromoteCall::MakeRoom(_) => {}
            PromoteCall::Clear(i) => self.set(&place(i).destination, None),
            PromoteCall::Move(i) => {
                let held = self.get(&place(i).staged);
                self.set(&place(i).destination, held);
                self.set(&place(i).staged, None);
            }
            PromoteCall::CopyOver(i) => {
                let held = self.get(&place(i).staged);
                self.set(&place(i).destination, held);
            }
            PromoteCall::DropStaged(i) => self.set(&place(i).staged, None),
            PromoteCall::PutBack(i) => {
                let held = self.get(&place(i).backup);
                self.set(&place(i).destination, held);
            }
            PromoteCall::Finished => {}
        }
        PromoteReply::Done
    }
}

fn three_places() -> Vec<Place> {
    places_of("/ws", "/stage", "/tx", &texts(&["a", "b", "c"]))
}

fn promoted(broken: Option<PromoteCall>, staged: &[&str]) -> (Promotion, Disk) {
    let mut disk = Disk { at: TextMap::new(), broken };
    for name in staged {
        disk.set(&format!("/stage/{name}"), Some(format!("new {name}")));
    }
    disk.set("/ws/a", Some("old a".to_string()));
    disk.set("/ws/c", Some("old c".to_string()));
    let mut promotion = Promotion::start(three_places());
    while promotion.call != PromoteCall::Finished {
        let reply = disk.answer(&promotion);
        promotion.next(reply);
    }
    (promotion, disk)
}

#[test]
fn promotion_replaces_all_outputs() {
    let (promotion, disk) = promoted(None, &["a", "b", "c"]);
    assert_eq!(promotion.error, None);
    for name in ["a", "b", "c"] {
        assert_eq!(disk.get(&format!("/ws/{name}")), Some(format!("new {name}")));
        assert_eq!(disk.get(&format!("/stage/{name}")), None);
    }
}

#[test]
fn failed_promotion_leaves_the_workspace_as_it_was() {
    let breaks = [
        PromoteCall::BackUp(0),
        PromoteCall::BackUp(2),
        PromoteCall::MakeRoom(0),
        PromoteCall::MakeRoom(1),
        PromoteCall::MakeRoom(2),
    ];
    for call in breaks {
        let (promotion, disk) = promoted(Some(call), &["a", "b", "c"]);
        assert_eq!(promotion.error.as_deref(), Some("disk full"), "{call:?}");
        assert!(promotion.clean);
        assert_eq!(disk.get("/ws/a"), Some("old a".to_string()), "{call:?}");
        assert_eq!(disk.get("/ws/b"), None, "{call:?}");
        assert_eq!(disk.get("/ws/c"), Some("old c".to_string()), "{call:?}");
    }
    let (promotion, disk) = promoted(None, &["a", "b"]);
    assert_eq!(
        promotion.error.as_deref(),
        Some("declared output 'c' was not produced in staged execution")
    );
    assert_eq!(disk.get("/ws/a"), Some("old a".to_string()));
}

#[test]
fn a_move_across_devices_becomes_a_copy() {
    let (promotion, disk) = promoted(Some(PromoteCall::Move(1)), &["a", "b", "c"]);
    assert_eq!(promotion.error, None);
    assert_eq!(disk.get("/ws/b"), Some("new b".to_string()));
    assert_eq!(disk.get("/stage/b"), None);
    assert_eq!(disk.get("/ws/c"), Some("new c".to_string()));
}

#[test]
fn nothing_to_promote_is_done_at_once() {
    assert_eq!(Promotion::start(vec![]).call, PromoteCall::Finished);
}

#[test]
fn graph_orders_tasks_by_layers() {
    let graph = graph_of(&[
        ("fmt", &[]),
        ("lint", &["fmt"]),
        ("test", &["fmt"]),
        ("ci", &["lint", "test"]),
        ("doc", &[]),
    ])
    .expect("graph");
    assert_eq!(
        graph.layers_for_target("ci").expect("layers"),
        vec![texts(&["fmt"]), texts(&["lint", "test"]), texts(&["ci"])]
    );
    assert_eq!(
        graph.required_tasks_for_target("lint").expect("tasks"),
        texts(&["fmt", "lint"])
    );
    assert_eq!(graph.all_tasks_sorted(), texts(&["ci", "doc", "fmt", "lint", "test"]));
}

#[test]
fn graph_refuses_circles_and_unknown_names() {
    assert_eq!(graph_of(&[("a", &["b"]), ("b", &["a"])]).unwrap_err(), GraphError::Cycle);
    assert_eq!(graph_of(&[("a", &["a"])]).unwrap_err(), GraphError::Cycle);
    assert_eq!(
        graph_of(&[("a", &["x"])]).unwrap_err(),
        GraphError::UnknownDependency { task: "a".to_string(), dependency: "x".to_string() }
    );
    let graph = graph_of(&[("a", &[])]).expect("graph");
    let error = graph.layers_for_target("z").unwrap_err();
    assert_eq!(error.message(), "task 'z' not found");
}

#[test]
fn aliases_name_tasks() {
    let mut task = TextMap::new();
    task.insert("fmt", after(&[]));
    task.insert("ci", after(&["fmt"]));
    let mut alias = TextMap::new();
    alias.insert("c", "ci".to_string());
    alias.insert("dangling", "ghost".to_string());
    let config = BroskiFile {
        broski: BroskiSection { version: "0.5".to_string() },
        task,
        alias,
        load_env: vec![],
    };
    assert_eq!(config.resolve_task_name("c").as_deref(), Some("ci"));
    assert_eq!(config.resolve_task_name("fmt").as_deref(), Some("fmt"));
    assert_eq!(required_tasks(&config, "c"), Some(texts(&["ci", "fmt"])));
    assert_eq!(required_tasks(&config, "ghost"), None);
}

#[test]
fn mode_is_inferred_from_the_outputs() {
    assert_eq!(simple_task("x").inferred_mode(), TaskMode::Graph);
    let bare = TaskSpec { outputs: vec![], ..simple_task("x") };
    assert_eq!(bare.inferred_mode(), TaskMode::Interactive);
    let said = TaskSpec { mode: Some(TaskMode::Graph), ..bare };
    assert_eq!(said.inferred_mode(), TaskMode::Graph);
}

#[test]
fn commands_follow_the_isolation_mode() {
    let mut task = simple_task("make");
    task.env.insert("MODE", "a".to_string());
    let plain = RunOptions::default();
    let command = task_command(&task, &plain, "/stage", false, None).expect("command");
    assert_eq!(command.program, "/bin/sh");
    assert_eq!(command.args, texts(&["-lc", "make"]));
    assert_eq!(command.current_dir, "/stage");
    assert!(command.clear_env);
    assert_eq!(command.keep[0], "PATH");
    assert_eq!(command.set, vec![("MODE".to_string(), "a".to_string())]);

    task.isolation = Some(IsolationMode::Off);
    let command = task_command(&task, &plain, "/stage", false, None).expect("command");
    assert!(!command.clear_env && command.keep.is_empty());

    let forced = RunOptions { force_isolation: true, ..RunOptions::default() };
    assert_eq!(selected_isolation(&task, &forced), IsolationMode::Strict);
    let command =
        task_command(&task, &forced, "/stage", true, Some("/usr/bin/bwrap")).expect("command");
    assert_eq!(command.program, "/usr/bin/bwrap");
    assert_eq!(command.args.last().map(|a| a.as_str()), Some("make"));
    assert!(command.args.contains(&"--unshare-net".to_string()));
    assert_eq!(
        task_command(&task, &forced, "/stage", true, None).unwrap_err(),
        CommandError::SandboxMissing
    );
    assert_eq!(
        task_command(&task, &forced, "/stage", false, Some("/usr/bin/bwrap")).unwrap_err(),
        CommandError::StrictUnsupported
    );
}

#[test]
fn summary_sorts_outcomes() {
    let outcome = |name: &str, from_cache: bool, dry_run: bool| TaskOutcome {
        task_name: name.to_string(),
        from_cache,
        dry_run,
        cache_miss_reasons: if from_cache { vec![] } else { texts(&["why"]) },
    };
    let mut summary = RunSummary::new();
    let done = summary.absorb_layer(vec![
        Ok(outcome("hit", true, false)),
        Ok(outcome("ran", false, false)),
        Ok(outcome("dry", false, true)),
    ]);
    assert_eq!(done, Ok(()));
    assert_eq!(summary.cache_hits, texts(&["hit"]));
    assert_eq!(summary.executed, texts(&["ran"]));
    assert_eq!(summary.dry_run, texts(&["dry"]));
    assert_eq!(summary.cache_miss_reasons.len(), 2);
    let failed = summary.absorb_layer(vec![Err("boom".to_string())]);
    assert_eq!(failed, Err("boom".to_string()));
}

#[test]
fn snapshot_leaves_state_directories_out() {
    assert!(should_include(Some("src/lib.rs")));
    assert!(should_include(Some(".gitignore")));
    assert!(should_include(Some("a/.git")));
    assert!(!should_include(Some(".git/config")));
    assert!(!should_include(Some(".please")));
    assert!(should_include(None));
    assert_eq!(snapshot_step("/s", "", EntryKind::Directory), CopyStep::Skip);
    assert_eq!(
        snapshot_step("/s", "a/b", EntryKind::File),
        CopyStep::CopyFile("/s/a/b".to_string())
    );
    assert_eq!(
        snapshot_step("/s", "l", EntryKind::Symlink),
        CopyStep::Link("/s/l".to_string())
    );
    assert_eq!(snapshot_step("/s", "p", EntryKind::Other), CopyStep::Skip);
    assert_eq!(tree_step("/d", "x", true), CopyStep::MakeDirectory("/d/x".to_string()));
    assert_eq!(tree_step("/d", "", true), CopyStep::Skip);
    assert!(uncopyable_message("/p").contains("'/p'"));
}

#[test]
fn refused_clones_are_told_from_errors() {
    let codes = vec![18, 95];
    assert!(is_reflink_unsupported(true, None, &codes));
    assert!(is_reflink_unsupported(false, Some(95), &codes));
    assert!(!is_reflink_unsupported(false, Some(2), &codes));
    assert!(!is_reflink_unsupported(false, None, &codes));
}

#[test]
fn artifact_paths_stay_inside() {
    assert_eq!(normalize_artifact_relative_path("a/./b//c/").expect("path"), "a/b/c");
    assert_eq!(normalize_artifact_relative_path(" ").unwrap_err(), PathError::Empty);
    assert_eq!(normalize_artifact_relative_path("/a").unwrap_err(), PathError::Absolute);
    assert_eq!(normalize_artifact_relative_path("a/../b").unwrap_err(), PathError::ParentSegment);
    assert_eq!(normalize_artifact_relative_path("./.").unwrap_err(), PathError::CurrentDirectory);
    assert_eq!(
        PathError::ParentSegment.message("a/.."),
        "cached artifact path 'a/..' cannot contain '..' segments"
    );
    assert_eq!(join_paths("/ws", "a"), "/ws/a");
    assert_eq!(join_paths("/ws/", "a"), "/ws/a");
    assert_eq!(join_paths("", "a"), "a");
    assert_eq!(join_paths("/ws", "/abs"), "/abs");
}

#[test]
fn a_summary_lists_each_task_once() {
    let outcome = |name: &str, from_cache: bool, dry_run: bool| TaskOutcome {
        task_name: name.to_string(),
        from_cache,
        dry_run,
        cache_miss_reasons: vec![],
    };
    let mut summary = RunSummary::new();
    summary
        .absorb_layer(vec![Ok(outcome("a", true, false)), Ok(outcome("b", false, false))])
        .expect("first layer");
    summary
        .absorb_layer(vec![Ok(outcome("c", false, true)), Ok(outcome("d", true, true))])
        .expect("second layer");
    let mut listed: Vec<String> = vec![];
    listed.extend(summary.executed.clone());
    listed.extend(summary.cache_hits.clone());
    listed.extend(summary.dry_run.clone());
    listed.extend(summary.skipped.clone());
    listed.sort();
    assert_eq!(listed, texts(&["a", "b", "c", "d"]));
}

#[test]
fn tasks_that_were_not_started_are_skipped() {
    let outcome = |name: &str| TaskOutcome {
        task_name: name.to_string(),
        from_cache: false,
        dry_run: false,
        cache_miss_reasons: vec![],
    };
    let mut summary = RunSummary::new();
    let left = summary.skip_unstarted(
        &texts(&["a", "b", "c"]),
        vec![None, Some(Ok(outcome("b"))), None],
    );
    assert_eq!(summary.skipped, texts(&["a", "c"]));
    assert!(summary.executed.is_empty());
    assert_eq!(left.len(), 1);
    summary.absorb_layer(left).expect("layer");
    assert_eq!(summary.executed, texts(&["b"]));
    assert!(summary.skip_unstarted(&texts(&["d"]), vec![None]).is_empty());
    assert_eq!(summary.skipped, texts(&["a", "c", "d"]));
}

#[test]
fn outputs_have_places_of_their_own() {
    let outputs = normalize_outputs(&TaskSpec {
        outputs: texts(&["./dist/a", "dist//b"]),
        ..simple_task("true")
    })
    .expect("outputs");
    let places = places_of("/ws", "/ws/.please/stage/t", "/ws/.please/tx/t", &outputs);
    let mut paths: Vec<String> = vec![];
    for place in &places {
        paths.push(place.destination.clone());
        paths.push(place.staged.clone());
        paths.push(place.backup.clone());
    }
    assert_eq!(paths[0], "/ws/dist/a");
    assert_eq!(paths[4], "/ws/.please/stage/t/dist/b");
    paths.sort();
    paths.dedup();
    assert_eq!(paths.len(), 6);
}
