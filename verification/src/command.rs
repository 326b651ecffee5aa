//! The process that runs a task.

use vstd::prelude::*;
use crate::executor::RunOptions;
use crate::model::{IsolationMode, RunSpec, TaskSpec};
use crate::text::texts;

verus! {

/// How far the task is kept apart in this run.
pub open spec fn chosen_isolation(task: TaskSpec, options: RunOptions) -> IsolationMode {
    if options.force_isolation {
        IsolationMode::Strict
    } else {
        task.apart()
    }
}

/// How far the task is kept apart in this run.
pub fn selected_isolation(task: &TaskSpec, options: &RunOptions) -> (r: IsolationMode)
    ensures
        r == chosen_isolation(*task, *options),
{
    if options.force_isolation {
        IsolationMode::Strict
    } else {
        task.effective_isolation()
    }
}

/// Why a task cannot be started.
#[derive(Debug, Clone, Copy, PartialEq, Eq, Structural)]
pub enum CommandError {
    /// There is no sandbox on this system.
    StrictUnsupported,
    /// The sandbox is not installed.
    SandboxMissing,
}

impl CommandError {
    /// What is said of the failure.
    pub open spec fn text(self) -> Seq<char> {
        match self {
            CommandError::StrictUnsupported => "strict isolation is only supported on Linux in v0.1; use best_effort on this platform"@,
            CommandError::SandboxMissing => "strict isolation requires bubblewrap (`bwrap`) to be installed on Linux"@,
        }
    }

    /// What is said of the failure.
    pub fn message(&self) -> (r: String)
        ensures
            r@ == self.text(),
    {
        match self {
            CommandError::StrictUnsupported => "strict isolation is only supported on Linux in v0.1; use best_effort on this platform".to_owned(),
            CommandError::SandboxMissing => "strict isolation requires bubblewrap (`bwrap`) to be installed on Linux".to_owned(),
        }
    }
}

/// A process to be started.
#[derive(Debug, Clone)]
pub struct TaskCommand {
    pub program: String,
    pub args: Vec<String>,
    /// Where it runs.
    pub current_dir: String,
    /// Whether it starts without the variables of this process.
    pub clear_env: bool,
    /// The variables of this process that it gets all the same.
    pub keep: Vec<String>,
    /// The variables that are set for it, behind those, in this order.
    pub set: Vec<(String, String)>,
}

/// The arguments of the sandbox: no network, the system read-only, the stage
/// writable.
pub open spec fn sandbox_args(stage: Seq<char>, line: Seq<char>) -> Seq<Seq<char>> {
    seq![
        "--die-with-parent"@,
        "--new-session"@,
        "--unshare-net"@,
        "--ro-bind"@,
        "/"@,
        "/"@,
        "--bind"@,
        stage,
        stage,
        "--proc"@,
        "/proc"@,
        "--dev"@,
        "/dev"@,
        "--tmpfs"@,
        "/tmp"@,
        "--chdir"@,
        stage,
        "/bin/sh"@,
        "-lc"@,
        line,
    ]
}

/// The variables that a task gets although its environment is clean.
pub open spec fn kept_variables() -> Seq<Seq<char>> {
    seq!["PATH"@, "HOME"@, "USER"@, "TMPDIR"@, "SHELL"@, "TERM"@]
}

/// The command for a task that runs in `stage`.
pub open spec fn is_command(
    command: TaskCommand,
    task: TaskSpec,
    mode: IsolationMode,
    stage: Seq<char>,
    sandbox: Option<Seq<char>>,
) -> bool {
    &&& command.program@ == (if mode == IsolationMode::Strict {
        sandbox.unwrap()
    } else {
        "/bin/sh"@
    })
    &&& texts(command.args@) == (if mode == IsolationMode::Strict {
        sandbox_args(stage, task.command())
    } else {
        seq!["-lc"@, task.command()]
    })
    &&& command.current_dir@ == stage
    &&& command.clear_env == (mode != IsolationMode::Off)
    &&& texts(command.keep@) == (if mode == IsolationMode::Off {
        Seq::empty()
    } else {
        kept_variables()
    })
    &&& command.set@.len() == task.env.keys().len()
    &&& forall|i: int|
        0 <= i < command.set@.len() ==> (#[trigger] command.set@[i]).0@ == task.env.keys()[i]
            && command.set@[i].1@ == task.env@[task.env.keys()[i]]@
}

/// The view of an optional text.
pub open spec fn opt_view(s: Option<&str>) -> Option<Seq<char>> {
    match s {
        Some(t) => Some(t@),
        None => None,
    }
}

/// The command that runs the task in `stage`. `linux` tells whether the system
/// can have the sandbox, `sandbox` where its program is.
pub fn task_command(
    task: &TaskSpec,
    options: &RunOptions,
    stage: &str,
    linux: bool,
    sandbox: Option<&str>,
) -> (r: Result<TaskCommand, CommandError>)
    requires
        task.env.wf(),
    ensures
        match r {
            Ok(command) => {
                &&& chosen_isolation(*task, *options) == IsolationMode::Strict ==> linux && sandbox is Some
                &&& is_command(
                    command,
                    *task,
                    chosen_isolation(*task, *options),
                    stage@,
                    opt_view(sandbox),
                )
            },
            Err(e) => {
                &&& chosen_isolation(*task, *options) == IsolationMode::Strict
                &&& e == (if linux {
                    CommandError::SandboxMissing
                } else {
                    CommandError::StrictUnsupported
                })
                &&& linux ==> sandbox is None
            },
        },
{
    broadcast use crate::text::lemma_texts_push;
    let mode = selected_isolation(task, options);
    let line = task.run_as_shell();
    let mut args: Vec<String> = Vec::new();
    let program: String;
    assert(texts(args@) =~= Seq::<Seq<char>>::empty());
    if mode == IsolationMode::Strict {
        if !linux {
            return Err(CommandError::StrictUnsupported);
        }
        match sandbox {
            Some(path) => {
                program = path.to_owned();
            },
            None => {
                return Err(CommandError::SandboxMissing);
            },
        }
        args.push("--die-with-parent".to_owned());
        args.push("--new-session".to_owned());
        args.push("--unshare-net".to_owned());
        args.push("--ro-bind".to_owned());
        args.push("/".to_owned());
        args.push("/".to_owned());
        args.push("--bind".to_owned());
        args.push(stage.to_owned());
        args.push(stage.to_owned());
        args.push("--proc".to_owned());
        args.push("/proc".to_owned());
        args.push("--dev".to_owned());
        args.push("/dev".to_owned());
        args.push("--tmpfs".to_owned());
        args.push("/tmp".to_owned());
        args.push("--chdir".to_owned());
        args.push(stage.to_owned());
        args.push("/bin/sh".to_owned());
        args.push("-lc".to_owned());
        args.push(line.to_owned());
        assert(texts(args@) =~= sandbox_args(stage@, line@));
    } else {
        program = "/bin/sh".to_owned();
        args.push("-lc".to_owned());
        args.push(line.to_owned());
        assert(texts(args@) =~= seq!["-lc"@, line@]);
    }
    let mut keep: Vec<String> = Vec::new();
    assert(texts(keep@) =~= Seq::<Seq<char>>::empty());
    if mode != IsolationMode::Off {
        keep.push("PATH".to_owned());
        keep.push("HOME".to_owned());
        keep.push("USER".to_owned());
        keep.push("TMPDIR".to_owned());
        keep.push("SHELL".to_owned());
        keep.push("TERM".to_owned());
        assert(texts(keep@) =~= kept_variables());
    }
    let set = variables(task);
    Ok(
        TaskCommand {
            program,
            args,
            current_dir: stage.to_owned(),
            clear_env: mode != IsolationMode::Off,
            keep,
            set,
        },
    )
}

/// The variables that the task declares, in ascending order of their names.
fn variables(task: &TaskSpec) -> (set: Vec<(String, String)>)
    requires
        task.env.wf(),
    ensures
        set@.len() == task.env.keys().len(),
        forall|i: int|
            0 <= i < set@.len() ==> (#[trigger] set@[i]).0@ == task.env.keys()[i] && set@[i].1@
                == task.env@[task.env.keys()[i]]@,
{
    let mut set: Vec<(String, String)> = Vec::new();
    let n: usize = task.env.len();
    let mut i: usize = 0;
    while i < n
        invariant
            task.env.wf(),
            n == task.env.keys().len(),
            i <= n,
            set.len() == i,
            forall|k: int|
                0 <= k < i ==> (#[trigger] set@[k]).0@ == task.env.keys()[k] && set@[k].1@
                    == task.env@[task.env.keys()[k]]@,
        decreases n - i,
    {
        set.push((task.env.key_at(i).to_owned(), task.env.value_at(i).clone()));
        i += 1;
    }
    set
}

/// The variables after those of the list were set, one after the other.
pub open spec fn with_set(
    start: Map<Seq<char>, Seq<char>>,
    set: Seq<(String, String)>,
) -> Map<Seq<char>, Seq<char>>
    decreases set.len(),
{
    if set.len() == 0 {
        start
    } else {
        with_set(start, set.drop_last()).insert(set.last().0@, set.last().1@)
    }
}

/// The variables that the process starts with, when `caller` are those of the
/// process that starts it.
pub open spec fn environment(
    command: TaskCommand,
    caller: Map<Seq<char>, Seq<char>>,
) -> Map<Seq<char>, Seq<char>> {
    with_set(
        if command.clear_env {
            caller.restrict(texts(command.keep@).to_set())
        } else {
            caller
        },
        command.set@,
    )
}

/// What was set last for a name is its value; other names keep theirs.
proof fn lemma_with_set(
    start: Map<Seq<char>, Seq<char>>,
    set: Seq<(String, String)>,
    keys: Seq<Seq<char>>,
    values: Map<Seq<char>, Seq<char>>,
    name: Seq<char>,
)
    requires
        set.len() == keys.len(),
        forall|i: int|
            0 <= i < set.len() ==> (#[trigger] set[i]).0@ == keys[i] && set[i].1@ == values[keys[i]],
    ensures
        with_set(start, set).contains_key(name) <==> start.contains_key(name) || keys.contains(name),
        with_set(start, set).contains_key(name) ==> with_set(start, set)[name] == (if keys.contains(
            name,
        ) {
            values[name]
        } else {
            start[name]
        }),
    decreases set.len(),
{
    if set.len() > 0 {
        let n = set.len() - 1;
        let front = keys.drop_last();
        assert forall|i: int| 0 <= i < n implies (#[trigger] set.drop_last()[i]).0@ == front[i]
            && set.drop_last()[i].1@ == values[front[i]] by {
            assert(set[i].0@ == keys[i]);
        }
        lemma_with_set(start, set.drop_last(), front, values, name);
        assert(set[n].0@ == keys[n] && set[n].1@ == values[keys[n]]);
        if front.contains(name) {
            let i = choose|i: int| 0 <= i < front.len() && front[i] == name;
            assert(keys[i] == name);
        }
        if keys.contains(name) && keys[n] != name {
            let i = choose|i: int| 0 <= i < keys.len() && keys[i] == name;
            assert(front[i] == name);
        }
    }
}

/// The variables of a task's process. Those that the task declares have the values
/// that it declares. Of the others, a task with a clean environment has `PATH`,
/// `HOME`, `USER`, `TMPDIR`, `SHELL` and `TERM`, where the caller has them, with the
/// caller's values, and no more; any other task has all of the caller's.
pub proof fn law_environment_of_a_task(
    command: TaskCommand,
    task: TaskSpec,
    mode: IsolationMode,
    stage: Seq<char>,
    sandbox: Option<Seq<char>>,
    caller: Map<Seq<char>, Seq<char>>,
    name: Seq<char>,
)
    requires
        task.env.wf(),
        is_command(command, task, mode, stage, sandbox),
    ensures
        environment(command, caller).contains_key(name) <==> {
            ||| task.env@.contains_key(name)
            ||| caller.contains_key(name) && (mode == IsolationMode::Off || name == "PATH"@ || name
                == "HOME"@ || name == "USER"@ || name == "TMPDIR"@ || name == "SHELL"@ || name
                == "TERM"@)
        },
        environment(command, caller).contains_key(name) && task.env@.contains_key(name)
            ==> environment(command, caller)[name] == task.env@[name]@,
        environment(command, caller).contains_key(name) && !task.env@.contains_key(name)
            ==> environment(command, caller)[name] == caller[name],
{
    task.env.lemma_keys();
    let keys = task.env.keys();
    let values = crate::record::text_values(task.env@);
    assert forall|i: int| 0 <= i < command.set@.len() implies (#[trigger] command.set@[i]).0@ == keys[i]
        && command.set@[i].1@ == values[keys[i]] by {
        assert(keys.contains(keys[i]));
        assert(task.env@.contains_key(keys[i]));
    }
    let kept = texts(command.keep@);
    let start = if command.clear_env {
        caller.restrict(kept.to_set())
    } else {
        caller
    };
    lemma_with_set(start, command.set@, keys, values, name);
    assert(task.env@.contains_key(name) <==> keys.contains(name));
    if mode != IsolationMode::Off {
        assert(kept.len() == 6);
        assert(kept[0] == "PATH"@ && kept[1] == "HOME"@ && kept[2] == "USER"@ && kept[3]
            == "TMPDIR"@ && kept[4] == "SHELL"@ && kept[5] == "TERM"@);
    }
}

/// The process of a task runs the task's line in a shell, in the stage. Under strict
/// isolation that shell is started by the sandbox, which has no network, ends with
/// its parent, is a session of its own, sees the system read-only with devices,
/// processes and temporary files of its own, and writes in the stage.
pub proof fn law_process_of_a_task(
    command: TaskCommand,
    task: TaskSpec,
    mode: IsolationMode,
    stage: Seq<char>,
    sandbox: Seq<char>,
)
    requires
        is_command(command, task, mode, stage, Some(sandbox)),
    ensures
        ({
            let words = seq![command.program@] + texts(command.args@);
            let shell = words.skip(words.len() - 3);
            let before = words.take(words.len() - 3);
            &&& command.current_dir@ == stage
            &&& words.len() >= 3
            &&& shell[0] == "/bin/sh"@
            &&& shell[1] == "-lc"@
            &&& task.run matches RunSpec::Shell(line) && shell[2] == line@
            &&& mode != IsolationMode::Strict ==> before.len() == 0
            &&& mode == IsolationMode::Strict ==> {
                &&& before.len() > 0
                &&& before[0] == sandbox
                &&& before.contains("--unshare-net"@)
                &&& before.contains("--die-with-parent"@)
                &&& before.contains("--new-session"@)
                &&& has_row(before, seq!["--ro-bind"@, "/"@, "/"@, "--bind"@, stage, stage])
                &&& has_row(before, seq!["--proc"@, "/proc"@])
                &&& has_row(before, seq!["--dev"@, "/dev"@])
                &&& has_row(before, seq!["--tmpfs"@, "/tmp"@])
                &&& has_row(before, seq!["--chdir"@, stage])
            }
        }),
{
    let words = seq![command.program@] + texts(command.args@);
    let before = words.take(words.len() - 3);
    let shell = words.skip(words.len() - 3);
    if mode == IsolationMode::Strict {
        let args = texts(command.args@);
        assert(args.len() == 20);
        assert(before[1] == "--die-with-parent"@);
        assert(before[2] == "--new-session"@);
        assert(before[3] == "--unshare-net"@);
        assert(before.subrange(4, 10) =~= seq![
            "--ro-bind"@,
            "/"@,
            "/"@,
            "--bind"@,
            stage,
            stage,
        ]);
        assert(before.subrange(10, 12) =~= seq!["--proc"@, "/proc"@]);
        assert(before.subrange(12, 14) =~= seq!["--dev"@, "/dev"@]);
        assert(before.subrange(14, 16) =~= seq!["--tmpfs"@, "/tmp"@]);
        assert(before.subrange(16, 18) =~= seq!["--chdir"@, stage]);
        assert(is_row(before, seq!["--ro-bind"@, "/"@, "/"@, "--bind"@, stage, stage], 4));
        assert(is_row(before, seq!["--proc"@, "/proc"@], 10));
        assert(is_row(before, seq!["--dev"@, "/dev"@], 12));
        assert(is_row(before, seq!["--tmpfs"@, "/tmp"@], 14));
        assert(is_row(before, seq!["--chdir"@, stage], 16));
    }
}

/// Whether the words of `row` stand one after the other in `words`, from `i` on.
pub open spec fn is_row(words: Seq<Seq<char>>, row: Seq<Seq<char>>, i: int) -> bool {
    0 <= i && i + row.len() <= words.len() && words.subrange(i, i + row.len()) == row
}

/// Whether the words of `row` stand one after the other somewhere in `words`.
pub open spec fn has_row(words: Seq<Seq<char>>, row: Seq<Seq<char>>) -> bool {
    exists|i: int| is_row(words, row, i)
}

/// A run that forces isolation runs every task in the sandbox. Otherwise a task runs
/// as it declares, and with a clean environment when it declares nothing.
pub proof fn law_isolation_of_a_task(task: TaskSpec, options: RunOptions)
    ensures
        options.force_isolation ==> chosen_isolation(task, options) == IsolationMode::Strict,
        !options.force_isolation && task.isolation is Some ==> Some(chosen_isolation(task, options))
            == task.isolation,
        !options.force_isolation && task.isolation is None ==> chosen_isolation(task, options)
            == IsolationMode::BestEffort,
{
}

/// What a task is started with. Where strict isolation is chosen, it is refused on another
/// system than Linux and one without the sandbox, and nowhere else. Its variables are those
/// that it declares, and of the caller's either all, when it is not isolated, or `PATH`,
/// `HOME`, `USER`, `TMPDIR`, `SHELL` and `TERM`. It runs in the stage.
pub proof fn law_started_with(
    task: TaskSpec,
    options: RunOptions,
    stage: &str,
    linux: bool,
    sandbox: Option<&str>,
    r: Result<TaskCommand, CommandError>,
    caller: Map<Seq<char>, Seq<char>>,
    name: Seq<char>,
)
    requires
        task.env.wf(),
        call_ensures(task_command, (&task, &options, stage, linux, sandbox), r),
    ensures
        ({
            let strict = options.force_isolation || task.isolation == Some(IsolationMode::Strict);
            let off = !options.force_isolation && task.isolation == Some(IsolationMode::Off);
            &&& r is Err <==> strict && (!linux || sandbox is None)
            &&& strict && !linux ==> r == Err::<TaskCommand, CommandError>(CommandError::StrictUnsupported)
            &&& strict && linux && sandbox is None ==> r == Err::<TaskCommand, CommandError>(
                CommandError::SandboxMissing,
            )
            &&& r matches Ok(command) ==> {
                &&& command.current_dir@ == stage@
                &&& strict ==> sandbox is Some && command.program@ == sandbox.unwrap()@
                &&& !strict ==> command.program@ == "/bin/sh"@ && texts(command.args@) =~= seq![
                    "-lc"@,
                    task.command(),
                ]
                &&& environment(command, caller).contains_key(name) <==> {
                    ||| task.env@.contains_key(name)
                    ||| caller.contains_key(name) && (off || name == "PATH"@ || name == "HOME"@ || name
                        == "USER"@ || name == "TMPDIR"@ || name == "SHELL"@ || name == "TERM"@)
                }
                &&& task.env@.contains_key(name) ==> environment(command, caller)[name] == task.env@[name]@
                &&& !task.env@.contains_key(name) && environment(command, caller).contains_key(name)
                    ==> environment(command, caller)[name] == caller[name]
            }
        }),
{
    law_isolation_of_a_task(task, options);
    if let Ok(command) = r {
        let mode = chosen_isolation(task, options);
        law_environment_of_a_task(command, task, mode, stage@, opt_view(sandbox), caller, name);
    }
}

/// The sandbox of a task is the one of [`law_process_of_a_task`], around the task's own line.
pub proof fn law_strict_task_is_sandboxed(
    task: TaskSpec,
    options: RunOptions,
    stage: &str,
    sandbox: &str,
    r: Result<TaskCommand, CommandError>,
    isolation: IsolationMode,
)
    requires
        call_ensures(task_command, (&task, &options, stage, true, Some(sandbox)), r),
        call_ensures(selected_isolation, (&task, &options), isolation),
    ensures
        options.force_isolation ==> isolation == IsolationMode::Strict,
        !options.force_isolation ==> isolation == (match task.isolation {
            Some(declared) => declared,
            None => IsolationMode::BestEffort,
        }),
        r matches Ok(command) && is_command(command, task, isolation, stage@, Some(sandbox@)),
        isolation == IsolationMode::Strict ==> (r matches Ok(command) && {
            let words = texts(command.args@);
            &&& command.program@ == sandbox@
            &&& words.len() >= 3
            &&& words.contains("--unshare-net"@)
            &&& words.last() == task.command()
            &&& command.clear_env
        }),
{
    law_isolation_of_a_task(task, options);
    if let Ok(command) = r {
        if isolation == IsolationMode::Strict {
            let words = texts(command.args@);
            assert(words[2] == "--unshare-net"@);
        }
    }
}

/// What is said when strict isolation cannot be had.
pub proof fn law_command_errors_are_told(e: CommandError, r: String)
    requires
        call_ensures(CommandError::message, (&e,), r),
    ensures
        e == CommandError::StrictUnsupported ==> r@
            == "strict isolation is only supported on Linux in v0.1; use best_effort on this platform"@,
        e == CommandError::SandboxMissing ==> r@
            == "strict isolation requires bubblewrap (`bwrap`) to be installed on Linux"@,
{
}

} // verus!
