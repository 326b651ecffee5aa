//! What a workspace declares: its tasks and how they are run.

use vstd::prelude::*;
use crate::event::TaskMode;
use crate::text_map::TextMap;

verus! {

/// How far a task is kept apart from the rest of the system.
#[derive(Debug, Clone, Copy, PartialEq, Eq, Structural)]
pub enum IsolationMode {
    /// In a sandbox without network, with a clean environment.
    Strict,
    /// With a clean environment.
    BestEffort,
    /// Not at all.
    Off,
}

/// The command of a task.
#[derive(Debug, Clone, PartialEq, Eq)]
pub enum RunSpec {
    /// A line for the shell.
    Shell(String),
}

/// One task.
#[derive(Debug, Clone)]
pub struct TaskSpec {
    pub deps: Vec<String>,
    pub description: Option<String>,
    pub resolved_variables: TextMap<String>,
    pub inputs: Vec<String>,
    pub stage_ro: Vec<String>,
    pub outputs: Vec<String>,
    pub env: TextMap<String>,
    pub env_inherit: Vec<String>,
    pub secret_env: Vec<String>,
    pub run: RunSpec,
    pub isolation: Option<IsolationMode>,
    pub mode: Option<TaskMode>,
    pub working_dir: Option<String>,
    pub params: Vec<String>,
    pub private: bool,
    pub confirm: Option<String>,
    pub shell_override: Option<String>,
    pub requires: Vec<String>,
}

impl TaskSpec {
    /// How the task is run: as declared, or attached to the terminal when it
    /// declares no outputs.
    pub open spec fn how(self) -> TaskMode {
        match self.mode {
            Some(mode) => mode,
            None => if self.outputs@.len() == 0 {
                TaskMode::Interactive
            } else {
                TaskMode::Graph
            },
        }
    }

    /// How the task is run.
    pub fn inferred_mode(&self) -> (r: TaskMode)
        ensures
            r == self.how(),
    {
        match self.mode {
            Some(mode) => mode,
            None => if self.outputs.len() == 0 {
                TaskMode::Interactive
            } else {
                TaskMode::Graph
            },
        }
    }

    /// How far the task is kept apart: as declared, or with a clean environment.
    pub open spec fn apart(self) -> IsolationMode {
        match self.isolation {
            Some(mode) => mode,
            None => IsolationMode::BestEffort,
        }
    }

    /// How far the task is kept apart.
    pub fn effective_isolation(&self) -> (r: IsolationMode)
        ensures
            r == self.apart(),
    {
        match self.isolation {
            Some(mode) => mode,
            None => IsolationMode::BestEffort,
        }
    }

    /// The line for the shell.
    pub open spec fn command(self) -> Seq<char> {
        match self.run {
            RunSpec::Shell(line) => line@,
        }
    }

    /// The line for the shell.
    pub fn run_as_shell(&self) -> (r: &str)
        ensures
            r@ == self.command(),
    {
        match &self.run {
            RunSpec::Shell(line) => line.as_str(),
        }
    }
}

/// The head of the file that declares the tasks.
#[derive(Debug, Clone, PartialEq, Eq)]
pub struct BroskiSection {
    pub version: String,
}

/// The file that declares the tasks of a workspace.
#[derive(Debug, Clone)]
pub struct BroskiFile {
    pub broski: BroskiSection,
    pub task: TextMap<TaskSpec>,
    /// Other names of tasks.
    pub alias: TextMap<String>,
    pub load_env: Vec<String>,
}

impl BroskiFile {
    /// The maps are in order.
    pub open spec fn wf(self) -> bool {
        self.task.wf() && self.alias.wf()
    }

    /// The task that a name means: the task of that name, or the one that the
    /// name is an alias of.
    pub open spec fn task_named(self, name: Seq<char>) -> Option<Seq<char>> {
        if self.task@.contains_key(name) {
            Some(name)
        } else if self.alias@.contains_key(name) && self.task@.contains_key(self.alias@[name]@) {
            Some(self.alias@[name]@)
        } else {
            None
        }
    }

    /// The task that a name means.
    pub fn resolve_task_name(&self, name: &str) -> (r: Option<String>)
        requires
            self.wf(),
        ensures
            match r {
                Some(task) => self.task_named(name@) == Some(task@),
                None => self.task_named(name@) is None,
            },
    {
        if self.task.contains_key(name) {
            return Some(name.to_owned());
        }
        match self.alias.get(name) {
            Some(target) => if self.task.contains_key(target.as_str()) {
                Some(target.clone())
            } else {
                None
            },
            None => None,
        }
    }
}

/// A task runs the way it declares. One that declares none is attached to the terminal
/// exactly when it has no outputs. It is kept apart as it declares, and with a clean
/// environment when it declares nothing. Its command is the line that it declares.
pub proof fn law_task_runs_as_declared(task: TaskSpec, mode: TaskMode, isolation: IsolationMode, line: &str)
    requires
        call_ensures(TaskSpec::inferred_mode, (&task,), mode),
        call_ensures(TaskSpec::effective_isolation, (&task,), isolation),
        call_ensures(TaskSpec::run_as_shell, (&task,), line),
    ensures
        task.mode is Some ==> task.mode == Some(mode),
        task.mode is None ==> (mode == TaskMode::Interactive <==> task.outputs@.len() == 0),
        task.mode is None ==> (mode == TaskMode::Graph <==> task.outputs@.len() > 0),
        task.isolation is Some ==> task.isolation == Some(isolation),
        task.isolation is None ==> isolation == IsolationMode::BestEffort,
        task.run matches RunSpec::Shell(declared) && declared@ == line@,
{
}

/// A name means the task of that name, even if it is an alias too; another name means the
/// task that it is an alias of. It never means a task that is not declared.
pub proof fn law_names_mean_declared_tasks(config: BroskiFile, name: &str, r: Option<String>)
    requires
        config.wf(),
        call_ensures(BroskiFile::resolve_task_name, (&config, name), r),
    ensures
        config.task@.contains_key(name@) ==> (r matches Some(task) && task@ == name@),
        !config.task@.contains_key(name@) && !config.alias@.contains_key(name@) ==> r is None,
        !config.task@.contains_key(name@) && config.alias@.contains_key(name@)
            && config.task@.contains_key(config.alias@[name@]@) ==> (r matches Some(task) && task@
            == config.alias@[name@]@),
        r matches Some(task) ==> config.task@.contains_key(task@),
        r is None ==> config.task_named(name@) is None,
        r matches Some(task) ==> config.task_named(name@) == Some(task@),
{
}

} // verus!
