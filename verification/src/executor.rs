//! How a target is run: what is asked for, what becomes of each task, and what
//! is told of it.
//!
//! Files, processes and the store are worked by the application. What is to be
//! done next, given what came back, is decided here.

use vstd::prelude::*;
use crate::graph::{GraphError, TaskGraph};
use crate::model::TaskSpec;
use crate::paths::{normalize_artifact_relative_path, normalized, PathError};
use crate::text::{copy_all, texts};
use crate::text_map::TextMap;

verus! {

/// How a target is to be run.
#[derive(Debug, Clone)]
pub struct RunOptions {
    /// Tell what would be done, and do nothing.
    pub dry_run: bool,
    /// Run every task, cached or not.
    pub force: bool,
    /// Leave the store alone.
    pub no_cache: bool,
    /// Tell why tasks were not cached.
    pub explain: bool,
    /// Run again when inputs change.
    pub watch: bool,
    /// Run every task in the sandbox.
    pub force_isolation: bool,
    /// How many tasks run at once.
    pub jobs: usize,
    /// What is handed to the task behind its own arguments.
    pub passthrough_args: Vec<String>,
    /// Tasks that run, cached or not.
    pub force_tasks: Vec<String>,
    /// Whether output is captured for the dashboard.
    pub capture_output: bool,
}

/// `num_cpus::get`: how many tasks the machine can run at once. Nothing is
/// claimed of the number.
#[verifier::external_body]
fn cpu_count() -> (r: usize) {
    num_cpus::get()
}

/// Whether the machine may be counted to run so many tasks at once.
pub closed spec fn may_count(cpus: usize) -> bool {
    call_ensures(cpu_count, (), cpus)
}

impl RunOptions {
    /// Nothing is asked for beyond a plain run of `jobs` tasks at once.
    pub open spec fn is_plain(self, jobs: int) -> bool {
        &&& !self.dry_run && !self.force && !self.no_cache && !self.explain && !self.watch
        &&& !self.force_isolation && !self.capture_output
        &&& self.jobs == jobs
        &&& self.passthrough_args@.len() == 0
        &&& self.force_tasks@.len() == 0
    }

    /// A plain run on a machine that can run `cpus` tasks at once.
    pub fn for_cpus(cpus: usize) -> (r: RunOptions)
        ensures
            r.is_plain(at_least_one(cpus as int)),
    {
        RunOptions {
            dry_run: false,
            force: false,
            no_cache: false,
            explain: false,
            watch: false,
            force_isolation: false,
            jobs: if cpus == 0 {
                1
            } else {
                cpus
            },
            passthrough_args: Vec::new(),
            force_tasks: Vec::new(),
            capture_output: false,
        }
    }

    /// A copy of the options.
    pub fn copy(&self) -> (r: RunOptions)
        ensures
            r.same_as(*self),
    {
        RunOptions {
            dry_run: self.dry_run,
            force: self.force,
            no_cache: self.no_cache,
            explain: self.explain,
            watch: self.watch,
            force_isolation: self.force_isolation,
            jobs: self.jobs,
            passthrough_args: copy_all(&self.passthrough_args),
            force_tasks: copy_all(&self.force_tasks),
            capture_output: self.capture_output,
        }
    }

    /// Whether the two ask for the same.
    pub open spec fn same_as(self, other: RunOptions) -> bool {
        &&& self.same_flags(other)
        &&& self.force == other.force
        &&& self.passthrough_args@ == other.passthrough_args@
        &&& self.force_tasks@ == other.force_tasks@
    }

    /// Whether the two agree in all but what they force and what they pass on.
    pub open spec fn same_flags(self, other: RunOptions) -> bool {
        &&& self.dry_run == other.dry_run
        &&& self.no_cache == other.no_cache
        &&& self.explain == other.explain
        &&& self.watch == other.watch
        &&& self.force_isolation == other.force_isolation
        &&& self.jobs == other.jobs
        &&& self.capture_output == other.capture_output
    }
}

/// The number, or one when it is zero.
pub open spec fn at_least_one(n: int) -> int {
    if n <= 0 {
        1
    } else {
        n
    }
}

impl Default for RunOptions {
    /// A plain run of as many tasks at once as the machine can run, and of at
    /// least one.
    fn default() -> (r: RunOptions)
        ensures
            exists|cpus: usize| #[trigger]
                may_count(cpus) && r.is_plain(at_least_one(cpus as int)),
    {
        let cpus: usize = cpu_count();
        assert(may_count(cpus));
        RunOptions::for_cpus(cpus)
    }
}

/// What became of a task.
#[derive(Debug, Clone)]
pub struct TaskOutcome {
    pub task_name: String,
    pub from_cache: bool,
    pub dry_run: bool,
    pub cache_miss_reasons: Vec<String>,
}

/// What became of a run.
#[derive(Debug, Clone)]
pub struct RunSummary {
    pub executed: Vec<String>,
    pub cache_hits: Vec<String>,
    pub dry_run: Vec<String>,
    pub skipped: Vec<String>,
    pub cache_miss_reasons: TextMap<Vec<String>>,
}

impl RunSummary {
    /// The reasons are in order of the tasks.
    pub open spec fn wf(self) -> bool {
        self.cache_miss_reasons.wf()
    }

    /// The summary of a run of no tasks.
    pub fn new() -> (r: RunSummary)
        ensures
            r.wf(),
            r.executed@.len() == 0,
            r.cache_hits@.len() == 0,
            r.dry_run@.len() == 0,
            r.skipped@.len() == 0,
            r.cache_miss_reasons@ == Map::<Seq<char>, Vec<String>>::empty(),
    {
        RunSummary {
            executed: Vec::new(),
            cache_hits: Vec::new(),
            dry_run: Vec::new(),
            skipped: Vec::new(),
            cache_miss_reasons: TextMap::new(),
        }
    }

    /// Whether the summary counts one task more than `before`.
    pub open spec fn counts(self, before: RunSummary, outcome: TaskOutcome) -> bool {
        let name = outcome.task_name@;
        &&& texts(self.dry_run@) == (if outcome.dry_run {
            texts(before.dry_run@).push(name)
        } else {
            texts(before.dry_run@)
        })
        &&& texts(self.cache_hits@) == (if !outcome.dry_run && outcome.from_cache {
            texts(before.cache_hits@).push(name)
        } else {
            texts(before.cache_hits@)
        })
        &&& texts(self.executed@) == (if !outcome.dry_run && !outcome.from_cache {
            texts(before.executed@).push(name)
        } else {
            texts(before.executed@)
        })
        &&& self.skipped@ == before.skipped@
        &&& self.cache_miss_reasons@ == (if outcome.cache_miss_reasons@.len() == 0 {
            before.cache_miss_reasons@
        } else {
            before.cache_miss_reasons@.insert(name, outcome.cache_miss_reasons)
        })
    }

    /// Counts one task: as a dry run, as a cache hit or as executed.
    pub fn absorb(&mut self, outcome: TaskOutcome)
        requires
            old(self).wf(),
        ensures
            final(self).wf(),
            final(self).counts(*old(self), outcome),
    {
        broadcast use crate::text::lemma_texts_push;
        if outcome.dry_run {
            self.dry_run.push(outcome.task_name.clone());
        } else if outcome.from_cache {
            self.cache_hits.push(outcome.task_name.clone());
        } else {
            self.executed.push(outcome.task_name.clone());
        }
        if outcome.cache_miss_reasons.len() > 0 {
            self.cache_miss_reasons.insert(outcome.task_name.as_str(), outcome.cache_miss_reasons);
        }
    }

    /// Whether the summary counts the outcomes, one after the other, more than
    /// `before`.
    pub open spec fn counts_all(self, before: RunSummary, outcomes: Seq<TaskOutcome>) -> bool {
        exists|steps: Seq<RunSummary>| #[trigger] is_count(steps, outcomes) && steps[0] == before
            && steps.last() == self
    }

    /// Lists the tasks of a layer that were not started, because the run was
    /// cancelled, as skipped, and hands back what became of the others. `ran`
    /// tells of each task of the layer what became of it, if it was started.
    pub fn skip_unstarted(
        &mut self,
        layer: &Vec<String>,
        ran: Vec<Option<Result<TaskOutcome, String>>>,
    ) -> (r: Vec<Result<TaskOutcome, String>>)
        requires
            layer@.len() == ran@.len(),
        ensures
            r@ == started(ran@),
            texts(final(self).skipped@) == texts(old(self).skipped@) + unstarted(
                texts(layer@),
                ran@,
            ),
            *final(self) == (RunSummary { skipped: final(self).skipped, ..*old(self) }),
    {
        broadcast use crate::text::lemma_texts_push;
        let mut r: Vec<Result<TaskOutcome, String>> = Vec::new();
        let mut rest = ran;
        let mut i: usize = 0;
        let ghost all = rest@;
        let ghost names = texts(layer@);
        assert(all.skip(0) =~= all);
        assert(unstarted(names.take(0), all.take(0)) =~= Seq::<Seq<char>>::empty());
        while i < layer.len()
            invariant
                i <= layer.len(),
                all == ran@,
                names == texts(layer@),
                layer@.len() == all.len(),
                rest@ == all.skip(i as int),
                r@ == started(all.take(i as int)),
                texts(self.skipped@) == texts(old(self).skipped@) + unstarted(
                    names.take(i as int),
                    all.take(i as int),
                ),
                *self == (RunSummary { skipped: self.skipped, ..*old(self) }),
            decreases layer.len() - i,
        {
            broadcast use crate::text::lemma_texts_push;
            let head = rest.remove(0);
            assert(head == all[i as int]);
            assert(rest@ =~= all.skip(i + 1));
            assert(all.take(i + 1).drop_last() =~= all.take(i as int));
            assert(names.take(i + 1).drop_last() =~= names.take(i as int));
            match head {
                Some(result) => {
                    r.push(result);
                },
                None => {
                    let ghost before = texts(self.skipped@);
                    self.skipped.push(layer[i].clone());
                    assert(texts(self.skipped@) =~= before.push(names[i as int]));
                    assert(texts(self.skipped@) =~= texts(old(self).skipped@) + unstarted(
                        names.take(i + 1),
                        all.take(i + 1),
                    ));
                },
            }
            i += 1;
        }
        assert(all.take(layer.len() as int) =~= all);
        assert(names.take(layer.len() as int) =~= names);
        r
    }

    /// Counts the outcomes of a layer, in their order, up to the first failure,
    /// which ends the run.
    pub fn absorb_layer(&mut self, outcomes: Vec<Result<TaskOutcome, String>>) -> (r: Result<(), String>)
        requires
            old(self).wf(),
        ensures
            final(self).wf(),
            final(self).counts_all(*old(self), successes(outcomes@)),
            match r {
                Ok(()) => successes(outcomes@).len() == outcomes@.len(),
                Err(e) => successes(outcomes@).len() < outcomes@.len() && outcomes@[successes(
                    outcomes@,
                ).len() as int] == Err::<TaskOutcome, String>(e),
            },
    {
        let mut rest = outcomes;
        let ghost mut k: int = 0;
        let ghost mut steps: Seq<RunSummary> = seq![*self];
        let ghost all = rest@;
        assert(all.skip(0) =~= all);
        assert(all.take(0) =~= Seq::<Result<TaskOutcome, String>>::empty());
        while rest.len() > 0
            invariant
                self.wf(),
                0 <= k <= all.len(),
                rest@ == all.skip(k),
                all == outcomes@,
                successes(all.take(k)).len() == k,
                is_count(steps, successes(all.take(k))),
                steps[0] == *old(self),
                steps.last() == *self,
            decreases rest.len(),
        {
            let head = rest.remove(0);
            assert(head == all[k]);
            proof {
                assert(rest@ =~= all.skip(k + 1));
                lemma_successes_step(all, k);
            }
            match head {
                Ok(outcome) => {
                    let ghost now = successes(all.take(k + 1));
                    assert(now.last() == outcome);
                    self.absorb(outcome);
                    proof {
                        let grown = steps.push(*self);
                        assert forall|i: int| 0 <= i < now.len() implies (#[trigger] grown[i
                            + 1]).counts(grown[i], now[i]) by {
                            if i < k {
                                assert(grown[i + 1] == steps[i + 1]);
                                assert(now[i] == successes(all.take(k))[i]);
                            }
                        }
                        assert(is_count(grown, now));
                        steps = grown;
                    }
                },
                Err(e) => {
                    assert(self.counts_all(*old(self), successes(outcomes@)));
                    return Err(e);
                },
            }
            proof {
                k = k + 1;
            }
        }
        assert(all.take(k) =~= all);
        assert(self.counts_all(*old(self), successes(outcomes@)));
        Ok(())
    }
}

/// What became of the tasks that were started.
pub open spec fn started(ran: Seq<Option<Result<TaskOutcome, String>>>) -> Seq<
    Result<TaskOutcome, String>,
>
    decreases ran.len(),
{
    if ran.len() == 0 {
        Seq::empty()
    } else {
        match ran.last() {
            Some(result) => started(ran.drop_last()).push(result),
            None => started(ran.drop_last()),
        }
    }
}

/// The names of the tasks that were not started.
pub open spec fn unstarted(
    names: Seq<Seq<char>>,
    ran: Seq<Option<Result<TaskOutcome, String>>>,
) -> Seq<Seq<char>>
    decreases ran.len(),
{
    if ran.len() == 0 {
        Seq::empty()
    } else {
        let front = unstarted(names.drop_last(), ran.drop_last());
        match ran.last() {
            Some(_) => front,
            None => front.push(names.last()),
        }
    }
}

/// Whether each summary counts one outcome more than the one before it.
pub open spec fn is_count(steps: Seq<RunSummary>, outcomes: Seq<TaskOutcome>) -> bool {
    &&& steps.len() == outcomes.len() + 1
    &&& forall|i: int|
        0 <= i < outcomes.len() ==> (#[trigger] steps[i + 1]).counts(steps[i], outcomes[i])
}

/// The outcomes before the first failure.
pub open spec fn successes(outcomes: Seq<Result<TaskOutcome, String>>) -> Seq<TaskOutcome>
    decreases outcomes.len(),
{
    if outcomes.len() == 0 {
        Seq::empty()
    } else {
        let front = successes(outcomes.drop_last());
        match outcomes.last() {
            Ok(outcome) => if front.len() == outcomes.len() - 1 {
                front.push(outcome)
            } else {
                front
            },
            Err(_) => front,
        }
    }
}

proof fn lemma_successes_step(all: Seq<Result<TaskOutcome, String>>, k: int)
    requires
        0 <= k < all.len(),
        successes(all.take(k)).len() == k,
    ensures
        match all[k] {
            Ok(outcome) => successes(all.take(k + 1)) == successes(all.take(k)).push(outcome),
            Err(_) => successes(all) == successes(all.take(k)),
        },
{
    assert(all.take(k + 1).drop_last() =~= all.take(k));
    if all[k] is Err {
        lemma_successes_stop(all, k, all.len() as int);
        assert(all.take(all.len() as int) =~= all);
    }
}

/// Nothing behind a failure counts.
proof fn lemma_successes_stop(all: Seq<Result<TaskOutcome, String>>, k: int, n: int)
    requires
        0 <= k < n <= all.len(),
        successes(all.take(k)).len() == k,
        all[k] is Err,
    ensures
        successes(all.take(n)) == successes(all.take(k)),
    decreases n,
{
    assert(all.take(n).drop_last() =~= all.take(n - 1));
    if n > k + 1 {
        lemma_successes_stop(all, k, n - 1);
    }
}

/// How often the name stands in the list.
pub open spec fn occurrences(names: Seq<Seq<char>>, name: Seq<char>) -> int
    decreases names.len(),
{
    if names.len() == 0 {
        0
    } else {
        occurrences(names.drop_last(), name) + (if names.last() == name {
            1int
        } else {
            0
        })
    }
}

proof fn lemma_occurrences_push(names: Seq<Seq<char>>, last: Seq<char>, name: Seq<char>)
    ensures
        occurrences(names.push(last), name) == occurrences(names, name) + (if last == name {
            1int
        } else {
            0
        }),
{
    assert(names.push(last).drop_last() =~= names);
}

proof fn lemma_occurrences_add(a: Seq<Seq<char>>, b: Seq<Seq<char>>, name: Seq<char>)
    ensures
        occurrences(a + b, name) == occurrences(a, name) + occurrences(b, name),
    decreases b.len(),
{
    if b.len() == 0 {
        assert(a + b =~= a);
    } else {
        assert((a + b).drop_last() =~= a + b.drop_last());
        assert((a + b).last() == b.last());
        lemma_occurrences_add(a, b.drop_last(), name);
    }
}

proof fn lemma_occurs_once(names: Seq<Seq<char>>, name: Seq<char>)
    requires
        names.no_duplicates(),
    ensures
        occurrences(names, name) == (if names.contains(name) {
            1int
        } else {
            0
        }),
    decreases names.len(),
{
    if names.len() > 0 {
        let front = names.drop_last();
        assert(front.no_duplicates()) by {
            assert forall|i: int, j: int|
                0 <= i < front.len() && 0 <= j < front.len() && i != j implies front[i] != front[j] by {
                assert(names[i] != names[j]);
            }
        }
        lemma_occurs_once(front, name);
        if front.contains(name) {
            let i = choose|i: int| 0 <= i < front.len() && front[i] == name;
            assert(names[i] == name);
            assert(names[i] != names[names.len() - 1]);
        }
        if names.contains(name) && names.last() != name {
            let i = choose|i: int| 0 <= i < names.len() && names[i] == name;
            assert(front[i] == name);
        }
        if names.last() == name {
            assert(names[names.len() - 1] == name);
        }
    }
}

/// How often the name stands in the lists of executed, cached and dry-run tasks.
pub open spec fn times_listed(summary: RunSummary, name: Seq<char>) -> int {
    occurrences(texts(summary.executed@), name) + occurrences(texts(summary.cache_hits@), name)
        + occurrences(texts(summary.dry_run@), name)
}

/// The names of the tasks that the outcomes are those of.
pub open spec fn names_of(outcomes: Seq<TaskOutcome>) -> Seq<Seq<char>> {
    outcomes.map_values(|outcome: TaskOutcome| outcome.task_name@)
}

/// The names of the tasks of all layers, one layer after the other.
pub open spec fn names_in(layers: Seq<Seq<TaskOutcome>>) -> Seq<Seq<char>>
    decreases layers.len(),
{
    if layers.len() == 0 {
        Seq::empty()
    } else {
        names_in(layers.drop_last()) + names_of(layers.last())
    }
}

/// Whether each summary counts the outcomes of one layer more than the one before
/// it, and the first counts none.
pub open spec fn sums_up(summaries: Seq<RunSummary>, layers: Seq<Seq<TaskOutcome>>) -> bool {
    &&& summaries.len() == layers.len() + 1
    &&& summaries[0].executed@.len() == 0
    &&& summaries[0].cache_hits@.len() == 0
    &&& summaries[0].dry_run@.len() == 0
    &&& forall|i: int|
        0 <= i < layers.len() ==> (#[trigger] summaries[i + 1]).counts_all(summaries[i], layers[i])
}

/// Each outcome puts its task into one list, once.
proof fn lemma_counts_once(steps: Seq<RunSummary>, outcomes: Seq<TaskOutcome>, name: Seq<char>)
    requires
        is_count(steps, outcomes),
    ensures
        times_listed(steps.last(), name) == times_listed(steps[0], name) + occurrences(
            names_of(outcomes),
            name,
        ),
    decreases outcomes.len(),
{
    if outcomes.len() > 0 {
        let n = outcomes.len() - 1;
        let front = outcomes.drop_last();
        let before = steps.drop_last();
        assert forall|i: int| 0 <= i < front.len() implies (#[trigger] before[i + 1]).counts(
            before[i],
            front[i],
        ) by {
            assert(steps[i + 1].counts(steps[i], outcomes[i]));
        }
        lemma_counts_once(before, front, name);
        assert(steps[n + 1].counts(steps[n], outcomes[n]));
        let told = outcomes[n].task_name@;
        assert(names_of(outcomes) =~= names_of(front).push(told));
        lemma_occurrences_push(names_of(front), told, name);
        lemma_occurrences_push(texts(steps[n].executed@), told, name);
        lemma_occurrences_push(texts(steps[n].cache_hits@), told, name);
        lemma_occurrences_push(texts(steps[n].dry_run@), told, name);
    }
}

proof fn lemma_sums_up(
    summaries: Seq<RunSummary>,
    layers: Seq<Seq<TaskOutcome>>,
    name: Seq<char>,
)
    requires
        sums_up(summaries, layers),
    ensures
        times_listed(summaries.last(), name) == occurrences(names_in(layers), name),
    decreases layers.len(),
{
    if layers.len() > 0 {
        let n = layers.len() - 1;
        let front = layers.drop_last();
        let before = summaries.drop_last();
        assert forall|i: int| 0 <= i < front.len() implies (#[trigger] before[i + 1]).counts_all(
            before[i],
            front[i],
        ) by {
            assert(summaries[i + 1].counts_all(summaries[i], layers[i]));
        }
        lemma_sums_up(before, front, name);
        assert(summaries[n + 1].counts_all(summaries[n], layers[n]));
        let steps = choose|steps: Seq<RunSummary>| #[trigger]
            is_count(steps, layers[n]) && steps[0] == summaries[n] && steps.last()
                == summaries[n + 1];
        lemma_counts_once(steps, layers[n], name);
        lemma_occurrences_add(names_in(front), names_of(layers.last()), name);
    }
}

/// Over all layers of a run, in which no task comes twice, each task stands once
/// in exactly one list of the summary: that of the executed tasks, of the cache
/// hits or of the dry run. No other name stands in any of them.
pub proof fn law_each_task_is_listed_once(
    summaries: Seq<RunSummary>,
    layers: Seq<Seq<TaskOutcome>>,
    name: Seq<char>,
)
    requires
        sums_up(summaries, layers),
        names_in(layers).no_duplicates(),
    ensures
        times_listed(summaries.last(), name) == (if names_in(layers).contains(name) {
            1int
        } else {
            0
        }),
{
    lemma_sums_up(summaries, layers, name);
    lemma_occurs_once(names_in(layers), name);
}

/// Why a target cannot be run.
#[derive(Debug, Clone, PartialEq, Eq)]
pub enum RunError {
    /// The sandbox is asked for where there is none.
    SandboxUnsupported,
    /// The sandbox is asked for and not installed.
    SandboxMissing,
    /// The target is not in the graph.
    Graph(GraphError),
}

impl RunError {
    /// What is said of the failure.
    pub open spec fn text(self) -> Seq<char> {
        match self {
            RunError::SandboxUnsupported => "--force-isolation requires Linux; strict sandbox execution is unsupported on this platform"@,
            RunError::SandboxMissing => "--force-isolation requires bubblewrap (`bwrap`) on PATH"@,
            RunError::Graph(e) => e.text(),
        }
    }

    /// What is said of the failure.
    pub fn message(&self) -> (r: String)
        ensures
            r@ == self.text(),
    {
        match self {
            RunError::SandboxUnsupported => "--force-isolation requires Linux; strict sandbox execution is unsupported on this platform".to_owned(),
            RunError::SandboxMissing => "--force-isolation requires bubblewrap (`bwrap`) on PATH".to_owned(),
            RunError::Graph(e) => e.message(),
        }
    }
}

/// The layers in which a target's tasks run, one layer after the other. `linux`
/// tells whether the system can have the sandbox, `sandbox` whether it is
/// installed.
pub fn run_plan(graph: &TaskGraph, target: &str, options: &RunOptions, linux: bool, sandbox: bool) -> (r:
    Result<Vec<Vec<String>>, RunError>)
    requires
        graph.wf(),
    ensures
        match r {
            Ok(layers) => {
                &&& options.force_isolation ==> linux && sandbox
                &&& graph.in_layers(layers@, target@)
            },
            Err(RunError::SandboxUnsupported) => options.force_isolation && !linux,
            Err(RunError::SandboxMissing) => options.force_isolation && linux && !sandbox,
            Err(RunError::Graph(GraphError::UnknownTask { task })) => {
                &&& options.force_isolation ==> linux && sandbox
                &&& task@ == target@
                &&& !graph.nodes().contains(target@)
            },
            Err(RunError::Graph(_)) => false,
        },
{
    if options.force_isolation {
        if !linux {
            return Err(RunError::SandboxUnsupported);
        }
        if !sandbox {
            return Err(RunError::SandboxMissing);
        }
    }
    match graph.layers_for_target(target) {
        Ok(layers) => Ok(layers),
        Err(e) => Err(RunError::Graph(e)),
    }
}

/// An output path that is refused.
#[derive(Debug, Clone, PartialEq, Eq)]
pub struct OutputError {
    pub output: String,
    pub cause: PathError,
}

/// The paths of the outputs, cleaned; up to the first that is refused.
pub open spec fn cleaned(outputs: Seq<Seq<char>>) -> Seq<Seq<char>>
    decreases outputs.len(),
{
    if outputs.len() == 0 {
        Seq::empty()
    } else {
        let front = cleaned(outputs.drop_last());
        match normalized(outputs.last()) {
            Ok(path) => if front.len() == outputs.len() - 1 {
                front.push(path)
            } else {
                front
            },
            Err(_) => front,
        }
    }
}

proof fn lemma_cleaned_stop(all: Seq<Seq<char>>, k: int, n: int)
    requires
        0 <= k < n <= all.len(),
        cleaned(all.take(k)).len() == k,
        normalized(all[k]) is Err,
    ensures
        cleaned(all.take(n)) == cleaned(all.take(k)),
    decreases n,
{
    assert(all.take(n).drop_last() =~= all.take(n - 1));
    if n > k + 1 {
        lemma_cleaned_stop(all, k, n - 1);
    }
}

/// The paths of the task's outputs, cleaned.
pub fn normalize_outputs(task: &TaskSpec) -> (r: Result<Vec<String>, OutputError>)
    ensures
        match r {
            Ok(paths) => texts(paths@) == cleaned(texts(task.outputs@)) && paths@.len()
                == task.outputs@.len(),
            Err(e) => {
                let k = cleaned(texts(task.outputs@)).len() as int;
                &&& k < task.outputs@.len()
                &&& e.output@ == task.outputs@[k]@
                &&& normalized(e.output@) == Err::<Seq<char>, PathError>(e.cause)
            },
        },
{
    broadcast use crate::text::lemma_texts_push;
    let mut paths: Vec<String> = Vec::new();
    let mut i: usize = 0;
    let ghost all = texts(task.outputs@);
    assert(texts(paths@) =~= cleaned(all.take(0)));
    while i < task.outputs.len()
        invariant
            i <= task.outputs.len(),
            all == texts(task.outputs@),
            paths.len() == i,
            texts(paths@) == cleaned(all.take(i as int)),
        decreases task.outputs.len() - i,
    {
        broadcast use crate::text::lemma_texts_push;
        assert(all.take(i + 1).drop_last() =~= all.take(i as int));
        assert(all.take(i + 1).last() == task.outputs@[i as int]@);
        match normalize_artifact_relative_path(task.outputs[i].as_str()) {
            Ok(path) => {
                paths.push(path);
            },
            Err(cause) => {
                proof {
                    assert(texts(paths@).len() == i);
                    lemma_cleaned_stop(all, i as int, all.len() as int);
                    assert(all.take(all.len() as int) =~= all);
                }
                return Err(OutputError { output: task.outputs[i].clone(), cause });
            },
        }
        i += 1;
    }
    assert(all.take(all.len() as int) =~= all);
    Ok(paths)
}

/// A task is listed where it belongs: a dry run as such, whether or not it was cached, a task
/// from the cache as a hit, any other as executed. The other lists stay, and its reasons are
/// kept under its name if it has any.
pub proof fn law_task_is_listed_where_it_belongs(before: RunSummary, outcome: TaskOutcome, after: RunSummary)
    requires
        after.counts(before, outcome),
    ensures
        ({
            let name = outcome.task_name@;
            let (b, a) = (before, after);
            &&& outcome.dry_run ==> {
                &&& texts(a.dry_run@) == texts(b.dry_run@) + seq![name]
                &&& texts(a.cache_hits@) == texts(b.cache_hits@)
                &&& texts(a.executed@) == texts(b.executed@)
            }
            &&& !outcome.dry_run && outcome.from_cache ==> {
                &&& texts(a.cache_hits@) == texts(b.cache_hits@) + seq![name]
                &&& texts(a.dry_run@) == texts(b.dry_run@)
                &&& texts(a.executed@) == texts(b.executed@)
            }
            &&& !outcome.dry_run && !outcome.from_cache ==> {
                &&& texts(a.executed@) == texts(b.executed@) + seq![name]
                &&& texts(a.dry_run@) == texts(b.dry_run@)
                &&& texts(a.cache_hits@) == texts(b.cache_hits@)
            }
            &&& a.skipped@ == b.skipped@
            &&& outcome.cache_miss_reasons@.len() > 0 ==> a.cache_miss_reasons@.contains_key(name)
                && a.cache_miss_reasons@[name] == outcome.cache_miss_reasons
            &&& outcome.cache_miss_reasons@.len() == 0 ==> a.cache_miss_reasons@ == b.cache_miss_reasons@
            &&& forall|other: Seq<char>|
                other != name ==> (#[trigger] a.cache_miss_reasons@.contains_key(other)
                    <==> b.cache_miss_reasons@.contains_key(other))
            &&& forall|other: Seq<char>|
                other != name && b.cache_miss_reasons@.contains_key(other) ==> (
                #[trigger] a.cache_miss_reasons@[other]) == b.cache_miss_reasons@[other]
        }),
{
    let name = outcome.task_name@;
    assert(texts(before.dry_run@).push(name) =~= texts(before.dry_run@) + seq![name]);
    assert(texts(before.cache_hits@).push(name) =~= texts(before.cache_hits@) + seq![name]);
    assert(texts(before.executed@).push(name) =~= texts(before.executed@) + seq![name]);
}

/// Absorbing an outcome counts it.
pub proof fn law_outcome_is_counted(summary: &mut RunSummary, outcome: TaskOutcome)
    requires
        call_ensures(RunSummary::absorb, (summary, outcome), ()),
    ensures
        final(summary).counts(*old(summary), outcome),
        times_listed(*final(summary), outcome.task_name@) == times_listed(
            *old(summary),
            outcome.task_name@,
        ) + 1,
{
    let (b, name) = (*old(summary), outcome.task_name@);
    lemma_occurrences_push(texts(b.executed@), name, name);
    lemma_occurrences_push(texts(b.cache_hits@), name, name);
    lemma_occurrences_push(texts(b.dry_run@), name, name);
}

/// What comes before the first failure counts, and nothing behind it: with no failure, all
/// outcomes do.
pub proof fn law_outcomes_count_up_to_a_failure(outcomes: Seq<Result<TaskOutcome, String>>, k: int)
    requires
        0 <= k <= outcomes.len(),
        forall|i: int| 0 <= i < k ==> (#[trigger] outcomes[i]) is Ok,
        k < outcomes.len() ==> outcomes[k] is Err,
    ensures
        successes(outcomes).len() == k,
        forall|i: int| 0 <= i < k ==> (#[trigger] outcomes[i]) == Ok::<TaskOutcome, String>(
            successes(outcomes)[i],
        ),
{
    lemma_successes_of_ok(outcomes, k);
    if k < outcomes.len() {
        lemma_successes_step(outcomes, k);
    } else {
        assert(outcomes.take(k) =~= outcomes);
    }
    assert forall|i: int| 0 <= i < k implies (#[trigger] outcomes[i]) == Ok::<TaskOutcome, String>(
        successes(outcomes)[i],
    ) by {
        assert(outcomes.take(k)[i] == outcomes[i]);
    }
}

proof fn lemma_successes_of_ok(outcomes: Seq<Result<TaskOutcome, String>>, k: int)
    requires
        0 <= k <= outcomes.len(),
        forall|i: int| 0 <= i < k ==> (#[trigger] outcomes[i]) is Ok,
    ensures
        successes(outcomes.take(k)).len() == k,
        forall|i: int|
            0 <= i < k ==> (#[trigger] outcomes.take(k)[i]) == Ok::<TaskOutcome, String>(
                successes(outcomes.take(k))[i],
            ),
    decreases k,
{
    if k > 0 {
        lemma_successes_of_ok(outcomes, k - 1);
        assert(outcomes.take(k).drop_last() =~= outcomes.take(k - 1));
        assert(outcomes.take(k).last() == outcomes[k - 1]);
        assert forall|i: int| 0 <= i < k implies (#[trigger] outcomes.take(k)[i]) == Ok::<
            TaskOutcome,
            String,
        >(successes(outcomes.take(k))[i]) by {
            if i < k - 1 {
                assert(outcomes.take(k - 1)[i] == outcomes.take(k)[i]);
            }
        }
    }
}

/// A layer ends the run with the error of the first task of it that failed, and goes well
/// exactly when none did.
pub proof fn law_first_failure_ends_the_run(
    summary: &mut RunSummary,
    outcomes: Vec<Result<TaskOutcome, String>>,
    r: Result<(), String>,
    k: int,
)
    requires
        call_ensures(RunSummary::absorb_layer, (summary, outcomes), r),
        0 <= k <= outcomes@.len(),
        forall|i: int| 0 <= i < k ==> (#[trigger] outcomes@[i]) is Ok,
        k < outcomes@.len() ==> outcomes@[k] is Err,
    ensures
        k == outcomes@.len() ==> r is Ok,
        k < outcomes@.len() ==> (r matches Err(e) && outcomes@[k] == Err::<TaskOutcome, String>(e)),
        final(summary).counts_all(*old(summary), successes(outcomes@)),
{
    law_outcomes_count_up_to_a_failure(outcomes@, k);
}

/// A task of a cancelled layer that was not started is listed as skipped; what became of the
/// others is handed on, in their order.
pub proof fn law_unstarted_tasks_are_skipped(
    names: Seq<Seq<char>>,
    ran: Seq<Option<Result<TaskOutcome, String>>>,
    name: Seq<char>,
    result: Result<TaskOutcome, String>,
)
    requires
        names.len() == ran.len(),
    ensures
        unstarted(names.push(name), ran.push(None)) == unstarted(names, ran).push(name),
        started(ran.push(None)) == started(ran),
        unstarted(names.push(name), ran.push(Some(result))) == unstarted(names, ran),
        started(ran.push(Some(result))) == started(ran).push(result),
        unstarted(Seq::empty(), Seq::empty()) == Seq::<Seq<char>>::empty(),
        started(Seq::empty()) == Seq::<Result<TaskOutcome, String>>::empty(),
        unstarted(names, ran).len() + started(ran).len() == names.len(),
    decreases ran.len(),
{
    assert(names.push(name).drop_last() =~= names);
    assert(ran.push(None).drop_last() =~= ran);
    assert(ran.push(Some(result)).drop_last() =~= ran);
    if ran.len() > 0 {
        law_unstarted_tasks_are_skipped(names.drop_last(), ran.drop_last(), name, result);
    }
}

/// Skipping adds the unstarted tasks behind those that were skipped before, and changes no
/// other list.
pub proof fn law_skipping_changes_one_list(
    summary: &mut RunSummary,
    layer: Vec<String>,
    ran: Vec<Option<Result<TaskOutcome, String>>>,
    r: Vec<Result<TaskOutcome, String>>,
)
    requires
        call_ensures(RunSummary::skip_unstarted, (summary, &layer, ran), r),
    ensures
        r@ == started(ran@),
        texts(final(summary).skipped@) == texts(old(summary).skipped@) + unstarted(texts(layer@), ran@),
        final(summary).executed == old(summary).executed,
        final(summary).cache_hits == old(summary).cache_hits,
        final(summary).dry_run == old(summary).dry_run,
        final(summary).cache_miss_reasons == old(summary).cache_miss_reasons,
{
}

/// The sandbox is needed only where it is asked for. Asked for, it is an error on another
/// system than Linux and one where it is not installed; an unknown target is an error in any
/// case, and otherwise the run is laid out.
pub proof fn law_when_a_target_can_be_run(
    graph: TaskGraph,
    target: &str,
    options: RunOptions,
    linux: bool,
    sandbox: bool,
    r: Result<Vec<Vec<String>>, RunError>,
)
    requires
        call_ensures(run_plan, (&graph, target, &options, linux, sandbox), r),
        graph.wf(),
    ensures
        options.force_isolation && !linux ==> r == Err::<Vec<Vec<String>>, RunError>(
            RunError::SandboxUnsupported,
        ),
        options.force_isolation && linux && !sandbox ==> r == Err::<Vec<Vec<String>>, RunError>(
            RunError::SandboxMissing,
        ),
        !options.force_isolation || linux && sandbox ==> {
            &&& r != Err::<Vec<Vec<String>>, RunError>(RunError::SandboxUnsupported)
            &&& r != Err::<Vec<Vec<String>>, RunError>(RunError::SandboxMissing)
            &&& r is Err ==> !graph.nodes().contains(target@)
        },
        (r matches Ok(layers) ==> graph.in_layers(layers@, target@)),
{
}

/// A plain run asks for nothing, and runs as many tasks at once as the machine can, never
/// none.
pub proof fn law_plain_run_asks_for_nothing(cpus: usize, r: RunOptions)
    requires
        call_ensures(RunOptions::for_cpus, (cpus,), r),
    ensures
        !r.dry_run && !r.force && !r.no_cache && !r.explain && !r.watch && !r.force_isolation,
        !r.capture_output,
        r.passthrough_args@.len() == 0 && r.force_tasks@.len() == 0,
        cpus > 0 ==> r.jobs == cpus,
        cpus == 0 ==> r.jobs == 1,
{
}

/// A copy of the options asks for the same in every respect.
pub proof fn law_copied_options_ask_for_the_same(options: RunOptions, r: RunOptions)
    requires
        call_ensures(RunOptions::copy, (&options,), r),
    ensures
        r.dry_run == options.dry_run && r.force == options.force && r.no_cache == options.no_cache,
        r.explain == options.explain && r.watch == options.watch,
        r.force_isolation == options.force_isolation && r.jobs == options.jobs,
        r.capture_output == options.capture_output,
        r.passthrough_args@ == options.passthrough_args@,
        r.force_tasks@ == options.force_tasks@,
{
}

/// The outputs of a task are cleaned one by one, in their order, and the first one that is
/// refused is named with the reason for which it is.
pub proof fn law_outputs_are_cleaned_one_by_one(task: TaskSpec, r: Result<Vec<String>, OutputError>, k: int)
    requires
        call_ensures(normalize_outputs, (&task,), r),
        0 <= k <= task.outputs@.len(),
        forall|i: int| 0 <= i < k ==> normalized((#[trigger] task.outputs@[i])@) is Ok,
        k < task.outputs@.len() ==> normalized(task.outputs@[k]@) is Err,
    ensures
        k < task.outputs@.len() ==> (r matches Err(e) && e.output@ == task.outputs@[k]@ && normalized(
            task.outputs@[k]@,
        ) == Err::<Seq<char>, PathError>(e.cause)),
        k == task.outputs@.len() ==> (r matches Ok(paths) && paths@.len() == k && forall|i: int|
            0 <= i < k ==> normalized(task.outputs@[i]@) == Ok::<Seq<char>, PathError>(
                (#[trigger] paths@[i])@,
            )),
{
    let all = texts(task.outputs@);
    assert forall|i: int| 0 <= i < k implies normalized(#[trigger] all[i]) is Ok by {
        assert(normalized(task.outputs@[i]@) is Ok);
    }
    lemma_cleaned_of_ok(all, k);
    if k < all.len() {
        lemma_cleaned_stop(all, k, all.len() as int);
        assert(all.take(all.len() as int) =~= all);
    } else {
        assert(all.take(k) =~= all);
        if let Ok(paths) = r {
            assert forall|i: int| 0 <= i < k implies normalized(task.outputs@[i]@) == Ok::<
                Seq<char>,
                PathError,
            >((#[trigger] paths@[i])@) by {
                assert(texts(paths@)[i] == paths@[i]@);
                assert(all.take(k)[i] == task.outputs@[i]@);
            }
        }
    }
}

/// All outputs are cleaned exactly when none of their paths is refused.
pub proof fn lemma_cleaned_len(all: Seq<Seq<char>>)
    ensures
        cleaned(all).len() <= all.len(),
        cleaned(all).len() == all.len() <==> forall|i: int|
            0 <= i < all.len() ==> normalized(#[trigger] all[i]) is Ok,
        cleaned(all).len() == all.len() ==> forall|i: int|
            0 <= i < all.len() ==> normalized(#[trigger] all[i]) == Ok::<Seq<char>, PathError>(
                cleaned(all)[i],
            ),
    decreases all.len(),
{
    if all.len() > 0 {
        let front = all.drop_last();
        lemma_cleaned_len(front);
        if cleaned(all).len() == all.len() {
            assert forall|i: int| 0 <= i < all.len() implies normalized(#[trigger] all[i]) == Ok::<
                Seq<char>,
                PathError,
            >(cleaned(all)[i]) by {
                if i < front.len() {
                    assert(front[i] == all[i]);
                }
            }
        }
        if forall|i: int| 0 <= i < all.len() ==> normalized(#[trigger] all[i]) is Ok {
            assert forall|i: int| 0 <= i < front.len() implies normalized(#[trigger] front[i]) is Ok by {
                assert(normalized(all[i]) is Ok);
            }
            assert(normalized(all[all.len() - 1]) is Ok);
        }
    }
}

proof fn lemma_cleaned_of_ok(all: Seq<Seq<char>>, k: int)
    requires
        0 <= k <= all.len(),
        forall|i: int| 0 <= i < k ==> normalized(#[trigger] all[i]) is Ok,
    ensures
        cleaned(all.take(k)).len() == k,
        forall|i: int|
            0 <= i < k ==> normalized(#[trigger] all.take(k)[i]) == Ok::<Seq<char>, PathError>(
                cleaned(all.take(k))[i],
            ),
    decreases k,
{
    if k > 0 {
        lemma_cleaned_of_ok(all, k - 1);
        assert(all.take(k).drop_last() =~= all.take(k - 1));
        assert(all.take(k).last() == all[k - 1]);
        assert forall|i: int| 0 <= i < k implies normalized(#[trigger] all.take(k)[i]) == Ok::<
            Seq<char>,
            PathError,
        >(cleaned(all.take(k))[i]) by {
            if i < k - 1 {
                assert(all.take(k - 1)[i] == all.take(k)[i]);
            }
        }
    }
}

/// What is said when the sandbox cannot be had names the flag that asks for it and what is
/// missing; of the graph, what the graph says is said.
pub proof fn law_run_errors_are_told(e: GraphError)
    ensures
        RunError::SandboxUnsupported.text()
            == "--force-isolation requires Linux; strict sandbox execution is unsupported on this platform"@,
        RunError::SandboxMissing.text() == "--force-isolation requires bubblewrap (`bwrap`) on PATH"@,
        RunError::Graph(e).text() == e.text(),
{
}

/// A new summary lists nothing, and an error is told as it is.
pub proof fn law_summary_begins_empty(r: RunSummary, e: RunError, text: String)
    requires
        call_ensures(RunSummary::new, (), r),
        call_ensures(RunError::message, (&e,), text),
    ensures
        r.executed@.len() == 0 && r.cache_hits@.len() == 0 && r.dry_run@.len() == 0 && r.skipped@.len() == 0,
        forall|k: Seq<char>| !(#[trigger] r.cache_miss_reasons@.contains_key(k)),
        text@ == e.text(),
{
}

} // verus!
