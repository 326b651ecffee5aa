//! The graph of the tasks and their dependencies.

use vstd::prelude::*;
use crate::model::{BroskiFile, TaskSpec};
use crate::text::{copy_all, same, texts};
use crate::text_map::{before, TextMap};

verus! {

/// Why the tasks do not make up a graph, or a task is not in it.
#[derive(Debug, Clone, PartialEq, Eq)]
pub enum GraphError {
    /// A task depends on one that is not declared.
    UnknownDependency { task: String, dependency: String },
    /// Some tasks depend on each other in a circle.
    Cycle,
    /// There is no task of this name.
    UnknownTask { task: String },
}

impl GraphError {
    /// What is said of the failure.
    pub open spec fn text(self) -> Seq<char> {
        match self {
            GraphError::UnknownDependency { task, dependency } => "task '"@ + task@
                + "' depends on unknown task '"@ + dependency@ + "'"@,
            GraphError::Cycle => "the tasks depend on each other in a circle"@,
            GraphError::UnknownTask { task } => "task '"@ + task@ + "' not found"@,
        }
    }

    /// What is said of the failure.
    pub fn message(&self) -> (r: String)
        ensures
            r@ == self.text(),
    {
        match self {
            GraphError::UnknownDependency { task, dependency } => {
                let mut r = "task '".to_owned();
                r.append(task.as_str());
                r.append("' depends on unknown task '");
                r.append(dependency.as_str());
                r.append("'");
                r
            },
            GraphError::Cycle => "the tasks depend on each other in a circle".to_owned(),
            GraphError::UnknownTask { task } => {
                let mut r = "task '".to_owned();
                r.append(task.as_str());
                r.append("' not found");
                r
            },
        }
    }
}

/// What the task depends on.
pub open spec fn deps_of(tasks: Map<Seq<char>, TaskSpec>, name: Seq<char>) -> Seq<Seq<char>> {
    texts(tasks[name].deps@)
}

/// Whether every dependency is declared.
pub open spec fn all_known(tasks: Map<Seq<char>, TaskSpec>) -> bool {
    forall|name: Seq<char>, j: int|
        tasks.contains_key(name) && 0 <= j < deps_of(tasks, name).len() ==> tasks.contains_key(
            #[trigger] deps_of(tasks, name)[j],
        )
}

/// Whether each of these tasks depends on one of them.
pub open spec fn is_circle(tasks: Map<Seq<char>, TaskSpec>, s: Set<Seq<char>>) -> bool {
    &&& exists|name: Seq<char>| s.contains(name)
    &&& forall|name: Seq<char>| #[trigger] s.contains(name) ==> tasks.contains_key(name)
    &&& forall|name: Seq<char>| #[trigger]
        s.contains(name) ==> exists|j: int|
            0 <= j < deps_of(tasks, name).len() && s.contains(#[trigger] deps_of(tasks, name)[j])
}

/// Whether some tasks depend on each other in a circle.
pub open spec fn has_circle(tasks: Map<Seq<char>, TaskSpec>) -> bool {
    exists|s: Set<Seq<char>>| is_circle(tasks, s)
}

/// Whether every dependency is the number of a node.
pub open spec fn in_range(deps: Seq<Vec<usize>>) -> bool {
    forall|i: int, j: int|
        0 <= i < deps.len() && 0 <= j < deps[i]@.len() ==> (#[trigger] deps[i]@[j]) < deps.len()
}

/// Whether each node stands exactly one level above its highest dependency, and
/// at level zero when it has none.
pub open spec fn leveled(deps: Seq<Vec<usize>>, levels: Seq<usize>) -> bool {
    &&& levels.len() == deps.len()
    &&& forall|i: int| 0 <= i < levels.len() ==> (#[trigger] levels[i]) < deps.len()
    &&& forall|i: int, j: int|
        0 <= i < deps.len() && 0 <= j < deps[i]@.len() ==> levels[(#[trigger] deps[i]@[j]) as int]
            < levels[i]
    &&& forall|i: int|
        0 <= i < deps.len() && (#[trigger] levels[i]) > 0 ==> rests_on(deps, levels, i, levels[i] - 1)
}

/// Whether one of the node's dependencies stands at the level.
pub open spec fn rests_on(deps: Seq<Vec<usize>>, levels: Seq<usize>, i: int, level: int) -> bool {
    exists|j: int| 0 <= j < deps[i]@.len() && levels[(#[trigger] deps[i]@[j]) as int] == level
}

/// Whether each of these nodes depends on one of them.
pub open spec fn is_stuck(deps: Seq<Vec<usize>>, s: Set<int>) -> bool {
    &&& exists|i: int| s.contains(i)
    &&& forall|i: int| #[trigger] s.contains(i) ==> 0 <= i < deps.len()
    &&& forall|i: int| #[trigger]
        s.contains(i) ==> exists|j: int|
            0 <= j < deps[i]@.len() && s.contains((#[trigger] deps[i]@[j]) as int)
}

/// How many nodes are not done.
spec fn undone(done: Seq<bool>) -> nat
    decreases done.len(),
{
    if done.len() == 0 {
        0
    } else {
        undone(done.drop_last()) + if done.last() {
            0nat
        } else {
            1nat
        }
    }
}

proof fn lemma_undone_step(done: Seq<bool>, i: int)
    requires
        0 <= i < done.len(),
        !done[i],
    ensures
        undone(done.update(i, true)) + 1 == undone(done),
    decreases done.len(),
{
    let next = done.update(i, true);
    if i == done.len() - 1 {
        assert(next.drop_last() =~= done.drop_last());
    } else {
        assert(next.drop_last() =~= done.drop_last().update(i, true));
        lemma_undone_step(done.drop_last(), i);
    }
}

proof fn lemma_undone_bound(done: Seq<bool>)
    ensures
        undone(done) <= done.len(),
        undone(done) == 0 ==> forall|i: int| 0 <= i < done.len() ==> done[i],
    decreases done.len(),
{
    if done.len() > 0 {
        lemma_undone_bound(done.drop_last());
        if undone(done) == 0 {
            assert forall|i: int| 0 <= i < done.len() implies done[i] by {
                if i < done.len() - 1 {
                    assert(done.drop_last()[i]);
                }
            }
        }
    }
}

/// Whether all of the nodes are done.
fn all_done(nodes: &Vec<usize>, done: &Vec<bool>) -> (r: bool)
    requires
        forall|j: int| 0 <= j < nodes.len() ==> (#[trigger] nodes@[j]) < done.len(),
    ensures
        r == (forall|j: int| 0 <= j < nodes.len() ==> done@[(#[trigger] nodes@[j]) as int]),
{
    let mut j: usize = 0;
    while j < nodes.len()
        invariant
            j <= nodes.len(),
            forall|k: int| 0 <= k < nodes.len() ==> (#[trigger] nodes@[k]) < done.len(),
            forall|k: int| 0 <= k < j ==> done@[(#[trigger] nodes@[k]) as int],
        decreases nodes.len() - j,
    {
        if !done[nodes[j]] {
            return false;
        }
        j += 1;
    }
    true
}

/// Whether a dependency of the node is not done, or was done in the round before
/// round `r`.
spec fn waits(deps: Seq<Vec<usize>>, done: Seq<bool>, levels: Seq<usize>, i: int, r: int) -> bool {
    exists|j: int|
        0 <= j < deps[i]@.len() && (!done[(#[trigger] deps[i]@[j]) as int] || levels[deps[i]@[j] as int]
            + 1 == r)
}

/// What holds of the nodes before round `r`.
spec fn settled(deps: Seq<Vec<usize>>, done: Seq<bool>, levels: Seq<usize>, r: int) -> bool {
    &&& done.len() == deps.len()
    &&& levels.len() == deps.len()
    &&& r + undone(done) <= deps.len()
    &&& forall|i: int| 0 <= i < deps.len() && #[trigger] done[i] ==> levels[i] < r
    &&& forall|i: int, j: int|
        0 <= i < deps.len() && done[i] && 0 <= j < deps[i]@.len() ==> done[(
        #[trigger] deps[i]@[j]) as int] && levels[deps[i]@[j] as int] < levels[i]
    &&& forall|i: int|
        0 <= i < deps.len() && #[trigger] done[i] && levels[i] > 0 ==> rests_on(
            deps,
            levels,
            i,
            levels[i] - 1,
        )
    &&& forall|i: int|
        0 <= i < deps.len() && !(#[trigger] done[i]) && r > 0 ==> waits(deps, done, levels, i, r)
}

/// Whether a dependency of the node is not done.
spec fn unmet(deps: Seq<Vec<usize>>, done: Seq<bool>, i: int) -> bool {
    exists|j: int| 0 <= j < deps[i]@.len() && !done[(#[trigger] deps[i]@[j]) as int]
}

/// Whether the node is on the list.
spec fn listed(nodes: Seq<usize>, i: int) -> bool {
    exists|a: int| 0 <= a < nodes.len() && (#[trigger] nodes[a]) == i
}

/// The nodes whose dependencies are all done and that are not done themselves.
fn ready_nodes(deps: &Vec<Vec<usize>>, done: &Vec<bool>) -> (r: Vec<usize>)
    requires
        in_range(deps@),
        done.len() == deps.len(),
    ensures
        forall|k: int| 0 <= k < r.len() ==> (#[trigger] r@[k]) < deps.len(),
        forall|k: int| 0 <= k < r.len() ==> !done@[(#[trigger] r@[k]) as int],
        forall|k: int, j: int|
            0 <= k < r.len() && 0 <= j < deps@[r@[k] as int]@.len()
                ==> done@[(#[trigger] deps@[r@[k] as int]@[j]) as int],
        forall|a: int, b: int| 0 <= a < b < r.len() ==> (#[trigger] r@[a]) < (#[trigger] r@[b]),
        forall|i: int|
            0 <= i < deps.len() && !(#[trigger] done@[i]) && !listed(r@, i) ==> unmet(deps@, done@, i),
{
    let mut r: Vec<usize> = Vec::new();
    let mut i: usize = 0;
    while i < deps.len()
        invariant
            in_range(deps@),
            done.len() == deps.len(),
            i <= deps.len(),
            forall|k: int| 0 <= k < r.len() ==> (#[trigger] r@[k]) < i,
            forall|k: int| 0 <= k < r.len() ==> !done@[(#[trigger] r@[k]) as int],
            forall|k: int, j: int|
                0 <= k < r.len() && 0 <= j < deps@[r@[k] as int]@.len()
                    ==> done@[(#[trigger] deps@[r@[k] as int]@[j]) as int],
            forall|a: int, b: int| 0 <= a < b < r.len() ==> (#[trigger] r@[a]) < (#[trigger] r@[b]),
            forall|x: int|
                0 <= x < i && !(#[trigger] done@[x]) && !listed(r@, x) ==> unmet(deps@, done@, x),
        decreases deps.len() - i,
    {
        let ghost before = r@;
        if !done[i] && all_done(&deps[i], done) {
            r.push(i);
            assert(r@[before.len() as int] == i);
        }
        assert forall|x: int| 0 <= x < i + 1 && !(#[trigger] done@[x]) && !listed(r@, x) implies unmet(
            deps@,
            done@,
            x,
        ) by {
            if x < i && listed(before, x) {
                let k = choose|k: int| 0 <= k < before.len() && (#[trigger] before[k]) == x;
                assert(r@[k] == x);
            }
        }
        i += 1;
    }
    r
}

/// The level of each node: one above its highest dependency. `None` when some
/// nodes depend on each other in a circle.
fn levels_of(deps: &Vec<Vec<usize>>) -> (r: Option<Vec<usize>>)
    requires
        in_range(deps@),
    ensures
        match r {
            Some(levels) => leveled(deps@, levels@),
            None => exists|s: Set<int>| is_stuck(deps@, s),
        },
{
    let n: usize = deps.len();
    let mut done: Vec<bool> = Vec::new();
    let mut levels: Vec<usize> = Vec::new();
    let mut i: usize = 0;
    while i < n
        invariant
            i <= n,
            done.len() == i,
            levels.len() == i,
            forall|k: int| 0 <= k < i ==> !done@[k],
        decreases n - i,
    {
        done.push(false);
        levels.push(0);
        i += 1;
    }
    proof {
        lemma_undone_bound(done@);
    }
    let mut r: usize = 0;
    loop
        invariant
            in_range(deps@),
            n == deps.len(),
            settled(deps@, done@, levels@, r as int),
        decreases undone(done@),
    {
        let ready = ready_nodes(deps, &done);
        if ready.len() == 0 {
            let mut k: usize = 0;
            while k < n
                invariant
                    in_range(deps@),
                    n == deps.len(),
                    k <= n,
                    settled(deps@, done@, levels@, r as int),
                    forall|x: int| 0 <= x < k ==> done@[x],
                    forall|x: int|
                        0 <= x < deps.len() && !(#[trigger] done@[x]) ==> unmet(deps@, done@, x),
                decreases n - k,
            {
                if !done[k] {
                    proof {
                        let s = Set::new(|x: int| 0 <= x < n && !done@[x]);
                        assert(s.contains(k as int));
                        assert forall|x: int| #[trigger] s.contains(x) implies exists|j: int|
                            0 <= j < deps@[x]@.len() && s.contains((#[trigger] deps@[x]@[j]) as int) by {
                            assert(!done@[x]);
                            let j = choose|j: int|
                                0 <= j < deps@[x]@.len() && !done@[(#[trigger] deps@[x]@[j]) as int];
                            assert(s.contains(deps@[x]@[j] as int));
                        }
                        assert(is_stuck(deps@, s));
                    }
                    return None;
                }
                k += 1;
            }
            proof {
                lemma_all_settled(deps@, done@, levels@, r as int);
            }
            return Some(levels);
        }
        let ghost done0 = done@;
        let ghost levels0 = levels@;
        proof {
            lemma_undone_bound(done0);
        }
        let mut k: usize = 0;
        while k < ready.len()
            invariant
                in_range(deps@),
                n == deps.len(),
                k <= ready.len(),
                done.len() == n,
                levels.len() == n,
                done0.len() == n,
                levels0.len() == n,
                forall|a: int| 0 <= a < ready.len() ==> (#[trigger] ready@[a]) < n,
                forall|a: int| 0 <= a < ready.len() ==> !done0[(#[trigger] ready@[a]) as int],
                forall|a: int, b: int|
                    0 <= a < b < ready.len() ==> (#[trigger] ready@[a]) < (#[trigger] ready@[b]),
                undone(done@) + k == undone(done0),
                forall|x: int| 0 <= x < n && done0[x] ==> #[trigger] done@[x],
                forall|x: int| 0 <= x < n && done0[x] ==> #[trigger] levels@[x] == levels0[x],
                forall|x: int| #![trigger done@[x]] #![trigger levels@[x]]
                    0 <= x < n && !done0[x] ==> (done@[x] <==> listed(ready@.take(k as int), x)) && (done@[x] ==> levels@[x] == r),
            decreases ready.len() - k,
        {
            let x: usize = ready[k];
            proof {
                assert(!done@[x as int]) by {
                    if done@[x as int] {
                        let t = ready@.take(k as int);
                        assert(listed(t, x as int));
                        let a = choose|a: int| 0 <= a < t.len() && (#[trigger] t[a]) == x;
                        assert(ready@[a] < ready@[k as int]);
                    }
                }
                lemma_undone_step(done@, x as int);
            }
            let ghost prev = done@;
            let ghost prev_levels = levels@;
            done.set(x, true);
            levels.set(x, r);
            assert forall|y: int| #![trigger done@[y]] #![trigger levels@[y]]
                0 <= y < n && !done0[y] implies (done@[y] <==> listed(ready@.take(k + 1), y)) && (
            done@[y] ==> levels@[y] == r) by {
                let t0 = ready@.take(k as int);
                let t1 = ready@.take(k + 1);
                if y == x {
                    assert(t1[k as int] == y);
                } else {
                    assert(done@[y] == prev[y]);
                    assert(levels@[y] == prev_levels[y]);
                    if listed(t1, y) {
                        let a = choose|a: int| 0 <= a < t1.len() && (#[trigger] t1[a]) == y;
                        assert(t0[a] == y);
                    }
                    if listed(t0, y) {
                        let a = choose|a: int| 0 <= a < t0.len() && (#[trigger] t0[a]) == y;
                        assert(t1[a] == y);
                    }
                }
            }
            k += 1;
        }
        assert(ready@.take(ready@.len() as int) =~= ready@);
        proof {
            lemma_round(deps@, done0, levels0, done@, levels@, ready@, r as int);
        }
        r += 1;
    }
}

/// A round keeps what holds of the nodes.
proof fn lemma_round(
    deps: Seq<Vec<usize>>,
    done0: Seq<bool>,
    levels0: Seq<usize>,
    done: Seq<bool>,
    levels: Seq<usize>,
    ready: Seq<usize>,
    r: int,
)
    requires
        in_range(deps),
        settled(deps, done0, levels0, r),
        done.len() == deps.len(),
        levels.len() == deps.len(),
        ready.len() > 0,
        forall|k: int| 0 <= k < ready.len() ==> (#[trigger] ready[k]) < deps.len(),
        forall|k: int| 0 <= k < ready.len() ==> !done0[(#[trigger] ready[k]) as int],
        forall|k: int, j: int|
            0 <= k < ready.len() && 0 <= j < deps[ready[k] as int]@.len()
                ==> done0[(#[trigger] deps[ready[k] as int]@[j]) as int],
        forall|i: int|
            0 <= i < deps.len() && !(#[trigger] done0[i]) && !listed(ready, i) ==> unmet(deps, done0, i),
        undone(done) + ready.len() == undone(done0),
        forall|x: int| 0 <= x < deps.len() && done0[x] ==> #[trigger] done[x],
        forall|x: int| 0 <= x < deps.len() && done0[x] ==> #[trigger] levels[x] == levels0[x],
        forall|x: int| #![trigger done[x]] #![trigger levels[x]]
            0 <= x < deps.len() && !done0[x] ==> (done[x] <==> listed(ready, x)) && (done[x] ==> levels[x] == r),
    ensures
        settled(deps, done, levels, r + 1),
{
    assert forall|i: int| 0 <= i < deps.len() && #[trigger] done[i] implies levels[i] < r + 1 by {
        assert(levels[i] == levels[i]);
        if done0[i] {
            assert(levels0[i] < r);
        }
    }
    assert forall|i: int, j: int| 0 <= i < deps.len() && done[i] && 0 <= j < deps[i]@.len() implies done[(
    #[trigger] deps[i]@[j]) as int] && levels[deps[i]@[j] as int] < levels[i] by {
        let d = deps[i]@[j] as int;
        assert(0 <= d < deps.len());
        if done0[i] {
            assert(done0[d] && levels0[d] < levels0[i]);
            assert(levels[i] == levels0[i]);
            assert(levels[d] == levels0[d]);
        } else {
            let a = choose|a: int| 0 <= a < ready.len() && (#[trigger] ready[a]) == i;
            assert(deps[ready[a] as int]@[j] == deps[i]@[j]);
            assert(done0[d]);
            assert(levels0[d] < r);
            assert(levels[d] == levels0[d]);
            assert(levels[i] == r);
        }
    }
    assert forall|i: int| 0 <= i < deps.len() && #[trigger] done[i] && levels[i] > 0 implies rests_on(
        deps,
        levels,
        i,
        levels[i] - 1,
    ) by {
        if done0[i] {
            assert(levels[i] == levels0[i]);
            assert(rests_on(deps, levels0, i, levels0[i] - 1));
            let j = choose|j: int|
                0 <= j < deps[i]@.len() && levels0[(#[trigger] deps[i]@[j]) as int] == levels0[i] - 1;
            let d = deps[i]@[j] as int;
            assert(done0[d]);
            assert(levels[d] == levels0[d]);
        } else {
            assert(levels[i] == r);
            assert(waits(deps, done0, levels0, i, r));
            let j = choose|j: int|
                0 <= j < deps[i]@.len() && (!done0[(#[trigger] deps[i]@[j]) as int]
                    || levels0[deps[i]@[j] as int] + 1 == r);
            let d = deps[i]@[j] as int;
            let a = choose|a: int| 0 <= a < ready.len() && (#[trigger] ready[a]) == i;
            assert(deps[ready[a] as int]@[j] == deps[i]@[j]);
            assert(done0[d]);
            assert(levels[d] == levels0[d]);
        }
    }
    assert forall|i: int| 0 <= i < deps.len() && !(#[trigger] done[i]) && r + 1 > 0 implies waits(
        deps,
        done,
        levels,
        i,
        r + 1,
    ) by {
        assert(!done0[i]);
        assert(unmet(deps, done0, i));
        let j = choose|j: int| 0 <= j < deps[i]@.len() && !done0[(#[trigger] deps[i]@[j]) as int];
        let d = deps[i]@[j] as int;
        assert(0 <= d < deps.len());
        if done[d] {
            assert(levels[d] == r);
        }
    }
}

/// When every node is done, the levels are right.
proof fn lemma_all_settled(deps: Seq<Vec<usize>>, done: Seq<bool>, levels: Seq<usize>, r: int)
    requires
        in_range(deps),
        settled(deps, done, levels, r),
        forall|i: int| 0 <= i < deps.len() ==> done[i],
    ensures
        leveled(deps, levels),
{
    assert forall|i: int| 0 <= i < levels.len() implies (#[trigger] levels[i]) < deps.len() by {
        assert(done[i]);
    }
    assert forall|i: int, j: int| 0 <= i < deps.len() && 0 <= j < deps[i]@.len() implies levels[(
    #[trigger] deps[i]@[j]) as int] < levels[i] by {
        assert(done[i]);
    }
    assert forall|i: int| 0 <= i < deps.len() && (#[trigger] levels[i]) > 0 implies rests_on(
        deps,
        levels,
        i,
        levels[i] - 1,
    ) by {
        assert(done[i]);
    }
}

/// Whether the set holds the dependencies of each node in it.
pub open spec fn closed_under(deps: Seq<Vec<usize>>, s: Set<int>) -> bool {
    forall|i: int, j: int|
        0 <= i < deps.len() && s.contains(i) && 0 <= j < deps[i]@.len() ==> s.contains(
            (#[trigger] deps[i]@[j]) as int,
        )
}

/// The nodes that are marked.
pub open spec fn marked(marks: Seq<bool>) -> Set<int> {
    Set::new(|i: int| 0 <= i < marks.len() && marks[i])
}

/// Whether exactly the nodes that `target` needs are marked: the least set that
/// holds it and, with each node, the node's dependencies.
pub open spec fn is_required(deps: Seq<Vec<usize>>, target: int, marks: Seq<bool>) -> bool {
    &&& marks.len() == deps.len()
    &&& marks[target]
    &&& closed_under(deps, marked(marks))
    &&& forall|s: Set<int>|
        s.contains(target) && #[trigger] closed_under(deps, s) ==> marked(marks).subset_of(s)
}

/// Marks the nodes that the target needs.
fn required_marks(deps: &Vec<Vec<usize>>, levels: &Vec<usize>, target: usize) -> (r: Vec<bool>)
    requires
        in_range(deps@),
        leveled(deps@, levels@),
        target < deps.len(),
    ensures
        is_required(deps@, target as int, r@),
{
    let n: usize = deps.len();
    let mut marks: Vec<bool> = Vec::new();
    let mut i: usize = 0;
    while i < n
        invariant
            i <= n,
            marks.len() == i,
            forall|k: int| 0 <= k < i ==> marks@[k] == (k == target),
        decreases n - i,
    {
        marks.push(i == target);
        i += 1;
    }
    let mut level: usize = n;
    while level > 0
        invariant
            in_range(deps@),
            leveled(deps@, levels@),
            n == deps.len(),
            target < n,
            level <= n,
            marks.len() == n,
            marks@[target as int],
            forall|s: Set<int>|
                s.contains(target as int) && #[trigger] closed_under(deps@, s) ==> marked(
                    marks@,
                ).subset_of(s),
            forall|x: int, j: int|
                0 <= x < n && marks@[x] && levels@[x] >= level && 0 <= j < deps@[x]@.len()
                    ==> marks@[(#[trigger] deps@[x]@[j]) as int],
        decreases level,
    {
        level -= 1;
        let mut i: usize = 0;
        while i < n
            invariant
                in_range(deps@),
                leveled(deps@, levels@),
                n == deps.len(),
                target < n,
                level < n,
                i <= n,
                marks.len() == n,
                marks@[target as int],
                forall|s: Set<int>|
                    s.contains(target as int) && #[trigger] closed_under(deps@, s) ==> marked(
                        marks@,
                    ).subset_of(s),
                forall|x: int, j: int|
                    0 <= x < n && marks@[x] && levels@[x] > level && 0 <= j < deps@[x]@.len()
                        ==> marks@[(#[trigger] deps@[x]@[j]) as int],
                forall|x: int, j: int|
                    0 <= x < i && marks@[x] && levels@[x] >= level && 0 <= j < deps@[x]@.len()
                        ==> marks@[(#[trigger] deps@[x]@[j]) as int],
            decreases n - i,
        {
            if marks[i] && levels[i] == level {
                let mut j: usize = 0;
                while j < deps[i].len()
                    invariant
                        in_range(deps@),
                        leveled(deps@, levels@),
                        n == deps.len(),
                        target < n,
                        level < n,
                        i < n,
                        j <= deps@[i as int]@.len(),
                        marks.len() == n,
                        marks@[target as int],
                        marks@[i as int],
                        levels@[i as int] == level,
                        forall|s: Set<int>|
                            s.contains(target as int) && #[trigger] closed_under(deps@, s) ==> marked(
                                marks@,
                            ).subset_of(s),
                        forall|x: int, y: int|
                            0 <= x < n && marks@[x] && levels@[x] > level && 0 <= y
                                < deps@[x]@.len() ==> marks@[(#[trigger] deps@[x]@[y]) as int],
                        forall|x: int, y: int|
                            0 <= x < i && marks@[x] && levels@[x] >= level && 0 <= y
                                < deps@[x]@.len() ==> marks@[(#[trigger] deps@[x]@[y]) as int],
                        forall|y: int|
                            0 <= y < j ==> marks@[(#[trigger] deps@[i as int]@[y]) as int],
                    decreases deps@[i as int]@.len() - j,
                {
                    let d: usize = deps[i][j];
                    let ghost before = marks@;
                    assert(levels@[deps@[i as int]@[j as int] as int] < levels@[i as int]);
                    marks.set(d, true);
                    proof {
                        assert forall|s: Set<int>|
                            s.contains(target as int) && #[trigger] closed_under(
                                deps@,
                                s,
                            ) implies marked(marks@).subset_of(s) by {
                            assert(marked(before).subset_of(s));
                            assert(marked(before).contains(i as int));
                            assert(s.contains(i as int));
                            assert(s.contains(deps@[i as int]@[j as int] as int));
                            assert forall|x: int| marked(marks@).contains(x) implies s.contains(x) by {
                                if x != d {
                                    assert(marked(before).contains(x));
                                }
                            }
                        }
                    }
                    j += 1;
                }
            }
            i += 1;
        }
    }
    assert(closed_under(deps@, marked(marks@))) by {
        assert forall|x: int, j: int|
            0 <= x < deps@.len() && marked(marks@).contains(x) && 0 <= j < deps@[x]@.len() implies marked(
            marks@,
        ).contains((#[trigger] deps@[x]@[j]) as int) by {
            assert(marks@[x] && levels@[x] >= 0);
        }
    }
    marks
}

/// The tasks as numbered nodes, in ascending order of their names, each with the
/// numbers of its dependencies and its level.
#[derive(Debug, Clone)]
pub struct TaskGraph {
    pub names: Vec<String>,
    pub deps: Vec<Vec<usize>>,
    pub levels: Vec<usize>,
}

impl TaskGraph {
    /// The names of the tasks by their numbers.
    pub open spec fn nodes(self) -> Seq<Seq<char>> {
        texts(self.names@)
    }

    /// The numbers, names and levels fit together.
    pub open spec fn wf(self) -> bool {
        &&& self.names@.len() == self.deps@.len()
        &&& self.nodes().no_duplicates()
        &&& in_range(self.deps@)
        &&& leveled(self.deps@, self.levels@)
    }

    /// Whether the graph is that of the tasks.
    pub open spec fn represents(self, tasks: TextMap<TaskSpec>) -> bool {
        &&& self.nodes() == tasks.keys()
        &&& self.deps@.len() == tasks.keys().len()
        &&& forall|i: int| #![trigger self.deps@[i]]
            0 <= i < self.deps@.len() ==> {
                &&& self.deps@[i]@.len() == deps_of(tasks@, tasks.keys()[i]).len()
                &&& forall|j: int|
                    0 <= j < self.deps@[i]@.len() ==> tasks.keys()[(
                    #[trigger] self.deps@[i]@[j]) as int] == deps_of(tasks@, tasks.keys()[i])[j]
            }
    }

    /// The graph of the tasks. Fails when a dependency is not declared, or when
    /// tasks depend on each other in a circle.
    pub fn build(tasks: &TextMap<TaskSpec>) -> (r: Result<TaskGraph, GraphError>)
        requires
            tasks.wf(),
        ensures
            match r {
                Ok(g) => g.wf() && g.represents(*tasks) && all_known(tasks@) && !has_circle(tasks@),
                Err(GraphError::UnknownDependency { task, dependency }) => {
                    &&& tasks@.contains_key(task@)
                    &&& deps_of(tasks@, task@).contains(dependency@)
                    &&& !tasks@.contains_key(dependency@)
                },
                Err(GraphError::Cycle) => all_known(tasks@) && has_circle(tasks@),
                Err(GraphError::UnknownTask { .. }) => false,
            },
    {
        let n: usize = tasks.len();
        let mut names: Vec<String> = Vec::new();
        let mut deps: Vec<Vec<usize>> = Vec::new();
        let mut i: usize = 0;
        proof {
            tasks.lemma_keys();
        }
        while i < n
            invariant
                tasks.wf(),
                n == tasks.keys().len(),
                i <= n,
                names.len() == i,
                deps.len() == i,
                forall|k: int| 0 <= k < i ==> (#[trigger] names@[k])@ == tasks.keys()[k],
                forall|k: int| #![trigger deps@[k]]
                    0 <= k < i ==> {
                        &&& deps@[k]@.len() == deps_of(tasks@, tasks.keys()[k]).len()
                        &&& forall|j: int|
                            0 <= j < deps@[k]@.len() ==> (#[trigger] deps@[k]@[j]) < n
                                && tasks.keys()[deps@[k]@[j] as int] == deps_of(
                                tasks@,
                                tasks.keys()[k],
                            )[j]
                    },
            decreases n - i,
        {
            let name = tasks.key_at(i);
            let spec_deps = &tasks.value_at(i).deps;
            let mut row: Vec<usize> = Vec::new();
            let mut j: usize = 0;
            while j < spec_deps.len()
                invariant
                    tasks.wf(),
                    n == tasks.keys().len(),
                    i < n,
                    j <= spec_deps.len(),
                    row.len() == j,
                    name@ == tasks.keys()[i as int],
                    tasks@.contains_key(name@),
                    texts(spec_deps@) == deps_of(tasks@, name@),
                    forall|k: int|
                        0 <= k < j ==> (#[trigger] row@[k]) < n && tasks.keys()[row@[k] as int]
                            == deps_of(tasks@, name@)[k],
                decreases spec_deps.len() - j,
            {
                let dep = spec_deps[j].as_str();
                assert(dep@ == texts(spec_deps@)[j as int]);
                match tasks.index_of(dep) {
                    Some(d) => {
                        row.push(d);
                    },
                    None => {
                        return Err(
                            GraphError::UnknownDependency {
                                task: name.to_owned(),
                                dependency: dep.to_owned(),
                            },
                        );
                    },
                }
                j += 1;
            }
            names.push(name.to_owned());
            deps.push(row);
            i += 1;
        }
        assert(texts(names@) =~= tasks.keys());
        assert(all_known(tasks@)) by {
            assert forall|name: Seq<char>, j: int|
                tasks@.contains_key(name) && 0 <= j < deps_of(
                    tasks@,
                    name,
                ).len() implies tasks@.contains_key(#[trigger] deps_of(tasks@, name)[j]) by {
                assert(tasks.keys().contains(name));
                let k = choose|k: int| 0 <= k < tasks.keys().len() && tasks.keys()[k] == name;
                let d = deps@[k]@[j] as int;
                assert(tasks.keys()[d] == deps_of(tasks@, name)[j]);
                assert(tasks.keys().contains(tasks.keys()[d]));
            }
        }
        assert(in_range(deps@));
        match levels_of(&deps) {
            Some(levels) => {
                let g = TaskGraph { names, deps, levels };
                proof {
                    if has_circle(tasks@) {
                        let s = choose|s: Set<Seq<char>>| is_circle(tasks@, s);
                        let name = choose|name: Seq<char>| s.contains(name);
                        assert(tasks@.contains_key(name));
                        let k = choose|k: int| 0 <= k < tasks.keys().len() && tasks.keys()[k] == name;
                        lemma_levels_break_circles(g, *tasks, s, k);
                    }
                }
                Ok(g)
            },
            None => {
                proof {
                    let s = choose|s: Set<int>| is_stuck(deps@, s);
                    let t = Set::new(
                        |name: Seq<char>|
                            exists|i: int| s.contains(i) && #[trigger] tasks.keys()[i] == name,
                    );
                    let x = choose|x: int| s.contains(x);
                    assert(t.contains(tasks.keys()[x]));
                    assert forall|name: Seq<char>| #[trigger] t.contains(name) implies exists|j: int|
                        0 <= j < deps_of(tasks@, name).len() && t.contains(
                            #[trigger] deps_of(tasks@, name)[j],
                        ) by {
                        let i = choose|i: int| s.contains(i) && #[trigger] tasks.keys()[i] == name;
                        let row = deps@[i];
                        let j = choose|j: int|
                            0 <= j < deps@[i]@.len() && s.contains((#[trigger] deps@[i]@[j]) as int);
                        let d = deps@[i]@[j] as int;
                        assert(s.contains(d) && tasks.keys()[d] == deps_of(tasks@, name)[j]);
                        assert(t.contains(deps_of(tasks@, name)[j]));
                    }
                    assert forall|name: Seq<char>| #[trigger] t.contains(name) implies tasks@.contains_key(
                        name,
                    ) by {
                        let i = choose|i: int| s.contains(i) && #[trigger] tasks.keys()[i] == name;
                        assert(tasks.keys().contains(name));
                    }
                    assert(is_circle(tasks@, t));
                }
                Err(GraphError::Cycle)
            },
        }
    }

    /// The number of the task of this name.
    fn number_of(&self, name: &str) -> (r: Option<usize>)
        ensures
            match r {
                Some(i) => i < self.names@.len() && self.nodes()[i as int] == name@,
                None => !self.nodes().contains(name@),
            },
    {
        let mut i: usize = 0;
        while i < self.names.len()
            invariant
                i <= self.names.len(),
                forall|k: int| 0 <= k < i ==> (#[trigger] self.names@[k])@ != name@,
            decreases self.names.len() - i,
        {
            if same(self.names[i].as_str(), name) {
                return Some(i);
            }
            i += 1;
        }
        proof {
            if self.nodes().contains(name@) {
                let k = choose|k: int| 0 <= k < self.nodes().len() && self.nodes()[k] == name@;
                assert(self.names@[k]@ == name@);
            }
        }
        None
    }

    /// Whether the set holds the dependencies of each task in it.
    pub open spec fn holds_dependencies(self, s: Set<Seq<char>>) -> bool {
        forall|i: int, j: int|
            0 <= i < self.deps@.len() && s.contains(self.nodes()[i]) && 0 <= j < self.deps@[i]@.len()
                ==> s.contains(self.nodes()[(#[trigger] self.deps@[i]@[j]) as int])
    }

    /// Whether these are the tasks that `target` needs: the least set that holds
    /// it and, with each task, the task's dependencies.
    pub open spec fn needs(self, target: Seq<char>, s: Set<Seq<char>>) -> bool {
        &&& s.contains(target)
        &&& forall|name: Seq<char>| #[trigger] s.contains(name) ==> self.nodes().contains(name)
        &&& self.holds_dependencies(s)
        &&& forall|t: Set<Seq<char>>|
            t.contains(target) && #[trigger] self.holds_dependencies(t) ==> s.subset_of(t)
    }

    proof fn lemma_marks_to_names(self, target: int, marks: Seq<bool>)
        requires
            self.wf(),
            0 <= target < self.deps@.len(),
            is_required(self.deps@, target, marks),
        ensures
            self.needs(self.nodes()[target], self.marked_names(marks)),
            marks == self.marks(self.marked_names(marks)),
    {
        let s = self.marked_names(marks);
        assert forall|i: int| 0 <= i < marks.len() implies (s.contains(#[trigger] self.nodes()[i])
            <==> marks[i]) by {
            if s.contains(self.nodes()[i]) {
                let k = choose|k: int| 0 <= k < marks.len() && marks[k] && #[trigger] self.nodes()[k]
                    == self.nodes()[i];
                assert(k == i);
            }
        }
        assert(marks =~= self.marks(s));
        assert(s.contains(self.nodes()[target]));
        assert forall|i: int, j: int|
            0 <= i < self.deps@.len() && s.contains(self.nodes()[i]) && 0 <= j
                < self.deps@[i]@.len() implies s.contains(
            self.nodes()[(#[trigger] self.deps@[i]@[j]) as int],
        ) by {
            assert(marked(marks).contains(i));
            assert(marked(marks).contains(self.deps@[i]@[j] as int));
        }
        assert forall|t: Set<Seq<char>>|
            t.contains(self.nodes()[target]) && #[trigger] self.holds_dependencies(
                t,
            ) implies s.subset_of(t) by {
            let x = Set::new(|i: int| 0 <= i < self.deps@.len() && t.contains(self.nodes()[i]));
            assert(closed_under(self.deps@, x)) by {
                assert forall|i: int, j: int|
                    0 <= i < self.deps@.len() && x.contains(i) && 0 <= j
                        < self.deps@[i]@.len() implies x.contains(
                    (#[trigger] self.deps@[i]@[j]) as int,
                ) by {}
            }
            assert(x.contains(target));
            assert(marked(marks).subset_of(x));
            assert forall|name: Seq<char>| s.contains(name) implies t.contains(name) by {
                let k = choose|k: int| 0 <= k < marks.len() && marks[k] && #[trigger] self.nodes()[k]
                    == name;
                assert(marked(marks).contains(k));
            }
        }
    }

    /// The names of the marked nodes.
    pub open spec fn marked_names(self, marks: Seq<bool>) -> Set<Seq<char>> {
        Set::new(
            |name: Seq<char>|
                exists|k: int| 0 <= k < marks.len() && marks[k] && #[trigger] self.nodes()[k] == name,
        )
    }

    /// Which nodes stand for the tasks in `s`.
    pub open spec fn marks(self, s: Set<Seq<char>>) -> Seq<bool> {
        Seq::new(self.deps@.len(), |i: int| s.contains(self.nodes()[i]))
    }

    /// Which nodes stand for the tasks in `s` at this level.
    pub open spec fn level_marks(self, s: Set<Seq<char>>, level: int) -> Seq<bool> {
        Seq::new(
            self.deps@.len(),
            |i: int| s.contains(self.nodes()[i]) && self.levels@[i] == level,
        )
    }

    /// The names of all tasks, in ascending order.
    pub fn all_tasks_sorted(&self) -> (r: Vec<String>)
        ensures
            texts(r@) == self.nodes(),
    {
        copy_all(&self.names)
    }

    /// The tasks that the target needs, itself among them, in ascending order of
    /// their names.
    pub fn required_tasks_for_target(&self, target: &str) -> (r: Result<Vec<String>, GraphError>)
        requires
            self.wf(),
        ensures
            match r {
                Ok(names) => exists|s: Set<Seq<char>>| #[trigger]
                    self.needs(target@, s) && texts(names@) == picked(self.nodes(), self.marks(s)),
                Err(GraphError::UnknownTask { task }) => task@ == target@ && !self.nodes().contains(
                    target@,
                ),
                Err(_) => false,
            },
    {
        let t: usize = match self.number_of(target) {
            Some(t) => t,
            None => {
                return Err(GraphError::UnknownTask { task: target.to_owned() });
            },
        };
        let marks = required_marks(&self.deps, &self.levels, t);
        proof {
            self.lemma_marks_to_names(t as int, marks@);
            assert(self.needs(target@, self.marked_names(marks@)));
        }
        Ok(pick(&self.names, &marks))
    }

    /// The tasks that the target needs, in layers: each task stands in the layer
    /// of its level, so that its dependencies stand in earlier layers.
    pub fn layers_for_target(&self, target: &str) -> (r: Result<Vec<Vec<String>>, GraphError>)
        requires
            self.wf(),
        ensures
            match r {
                Ok(layers) => self.in_layers(layers@, target@),
                Err(GraphError::UnknownTask { task }) => task@ == target@ && !self.nodes().contains(
                    target@,
                ),
                Err(_) => false,
            },
    {
        let t: usize = match self.number_of(target) {
            Some(t) => t,
            None => {
                return Err(GraphError::UnknownTask { task: target.to_owned() });
            },
        };
        let marks = required_marks(&self.deps, &self.levels, t);
        let ghost s = self.marked_names(marks@);
        proof {
            self.lemma_marks_to_names(t as int, marks@);
        }
        let n: usize = self.names.len();
        let mut layers: Vec<Vec<String>> = Vec::new();
        let mut level: usize = 0;
        while level <= self.levels[t]
            invariant
                self.wf(),
                n == self.names@.len(),
                t < n,
                level <= self.levels@[t as int] + 1,
                layers.len() == level,
                marks@ == self.marks(s),
                forall|k: int|
                    0 <= k < level ==> texts((#[trigger] layers@[k])@) == picked(
                        self.nodes(),
                        self.level_marks(s, k),
                    ),
            decreases self.levels@[t as int] + 1 - level,
        {
            let mut here: Vec<bool> = Vec::new();
            let mut i: usize = 0;
            while i < n
                invariant
                    self.wf(),
                    n == self.names@.len(),
                    i <= n,
                    here.len() == i,
                    marks@ == self.marks(s),
                    forall|k: int|
                        0 <= k < i ==> (#[trigger] here@[k]) == (marks@[k] && self.levels@[k] == level),
                decreases n - i,
            {
                here.push(marks[i] && self.levels[i] == level);
                i += 1;
            }
            assert(here@ =~= self.level_marks(s, level as int));
            layers.push(pick(&self.names, &here));
            level += 1;
        }
        proof {
            assert(self.are_layers(layers@, target@, s, t as int));
        }
        Ok(layers)
    }

    /// Whether these are the layers of the tasks that the target needs.
    pub open spec fn in_layers(self, layers: Seq<Vec<String>>, target: Seq<char>) -> bool {
        exists|s: Set<Seq<char>>, t: int| self.are_layers(layers, target, s, t)
    }

    /// Whether these are the layers of the tasks that the target needs, which are
    /// those in `s`; `t` is the number of the target.
    pub open spec fn are_layers(
        self,
        layers: Seq<Vec<String>>,
        target: Seq<char>,
        s: Set<Seq<char>>,
        t: int,
    ) -> bool {
        &&& 0 <= t < self.deps@.len()
        &&& self.nodes()[t] == target
        &&& self.needs(target, s)
        &&& layers.len() == self.levels@[t] + 1
        &&& forall|k: int|
            0 <= k < layers.len() ==> texts((#[trigger] layers[k])@) == picked(
                self.nodes(),
                self.level_marks(s, k),
            )
    }
}

/// The marked names, in their order.
pub open spec fn picked(names: Seq<Seq<char>>, marks: Seq<bool>) -> Seq<Seq<char>>
    decreases names.len(),
{
    if names.len() == 0 {
        Seq::empty()
    } else {
        let front = picked(names.drop_last(), marks);
        if marks[names.len() - 1] {
            front.push(names.last())
        } else {
            front
        }
    }
}

/// The marked names, in their order.
fn pick(names: &Vec<String>, marks: &Vec<bool>) -> (r: Vec<String>)
    requires
        marks.len() == names.len(),
    ensures
        texts(r@) == picked(texts(names@), marks@),
{
    let mut r: Vec<String> = Vec::new();
    let mut i: usize = 0;
    let ghost all = texts(names@);
    assert(texts(r@) =~= picked(all.take(0), marks@));
    while i < names.len()
        invariant
            marks.len() == names.len(),
            i <= names.len(),
            all == texts(names@),
            texts(r@) == picked(all.take(i as int), marks@),
        decreases names.len() - i,
    {
        assert(all.take(i + 1).drop_last() =~= all.take(i as int));
        if marks[i] {
            let ghost before = r@;
            r.push(names[i].clone());
            assert(texts(r@) =~= texts(before).push(names@[i as int]@));
        }
        i += 1;
    }
    assert(all.take(all.len() as int) =~= all);
    r
}

/// No task that the target needs stands above it, so the layers up to the
/// target's own hold all of them.
pub proof fn law_target_is_highest(g: TaskGraph, target: int, s: Set<Seq<char>>, i: int)
    requires
        g.wf(),
        0 <= target < g.deps@.len(),
        0 <= i < g.deps@.len(),
        g.needs(g.nodes()[target], s),
        s.contains(g.nodes()[i]),
    ensures
        g.levels@[i] <= g.levels@[target],
{
    let t = Set::new(
        |name: Seq<char>|
            exists|k: int|
                0 <= k < g.deps@.len() && #[trigger] g.nodes()[k] == name && g.levels@[k]
                    <= g.levels@[target],
    );
    assert(g.nodes()[target] == g.nodes()[target]);
    assert(t.contains(g.nodes()[target]));
    assert(g.holds_dependencies(t)) by {
        assert forall|k: int, j: int|
            0 <= k < g.deps@.len() && t.contains(g.nodes()[k]) && 0 <= j
                < g.deps@[k]@.len() implies t.contains(
            g.nodes()[(#[trigger] g.deps@[k]@[j]) as int],
        ) by {
            let m = choose|m: int|
                0 <= m < g.deps@.len() && #[trigger] g.nodes()[m] == g.nodes()[k] && g.levels@[m]
                    <= g.levels@[target];
            assert(m == k);
            let d = g.deps@[k]@[j] as int;
            assert(g.levels@[d] < g.levels@[k]);
            assert(g.nodes()[d] == g.nodes()[d]);
        }
    }
    assert(s.subset_of(t));
    assert(t.contains(g.nodes()[i]));
    let k = choose|k: int|
        0 <= k < g.deps@.len() && #[trigger] g.nodes()[k] == g.nodes()[i] && g.levels@[k]
            <= g.levels@[target];
    assert(k == i);
}

/// A task's dependencies are needed with it, and stand in earlier layers.
pub proof fn law_dependencies_come_first(
    g: TaskGraph,
    target: Seq<char>,
    s: Set<Seq<char>>,
    i: int,
    j: int,
)
    requires
        g.wf(),
        g.needs(target, s),
        0 <= i < g.deps@.len(),
        s.contains(g.nodes()[i]),
        0 <= j < g.deps@[i]@.len(),
    ensures
        s.contains(g.nodes()[g.deps@[i]@[j] as int]),
        g.levels@[g.deps@[i]@[j] as int] < g.levels@[i],
{
    assert(g.levels@[(g.deps@[i]@[j]) as int] < g.levels@[i]);
}

/// What a target needs is settled by the graph.
pub proof fn law_needs_are_unique(
    g: TaskGraph,
    target: Seq<char>,
    a: Set<Seq<char>>,
    b: Set<Seq<char>>,
)
    requires
        g.needs(target, a),
        g.needs(target, b),
    ensures
        a == b,
{
    assert(a.subset_of(b) && b.subset_of(a));
    assert(a =~= b);
}

/// Tasks with levels do not depend on each other in a circle.
proof fn lemma_levels_break_circles(
    g: TaskGraph,
    tasks: TextMap<TaskSpec>,
    s: Set<Seq<char>>,
    i: int,
)
    requires
        g.wf(),
        tasks.wf(),
        g.represents(tasks),
        is_circle(tasks@, s),
        0 <= i < g.deps@.len(),
    ensures
        !s.contains(tasks.keys()[i]),
    decreases g.levels@[i],
{
    let name = tasks.keys()[i];
    if s.contains(name) {
        let j = choose|j: int|
            0 <= j < deps_of(tasks@, name).len() && s.contains(#[trigger] deps_of(tasks@, name)[j]);
        let d = g.deps@[i]@[j] as int;
        assert(tasks.keys()[d] == deps_of(tasks@, name)[j]);
        lemma_levels_break_circles(g, tasks, s, d);
    }
}

/// Whether the set holds the dependencies of each task in it.
pub open spec fn holds_deps(tasks: Map<Seq<char>, TaskSpec>, s: Set<Seq<char>>) -> bool {
    forall|name: Seq<char>, j: int|
        tasks.contains_key(name) && s.contains(name) && 0 <= j < deps_of(tasks, name).len()
            ==> s.contains(#[trigger] deps_of(tasks, name)[j])
}

/// Whether these are the tasks that `target` needs: the least set that holds it
/// and, with each task, the task's dependencies.
pub open spec fn needed(
    tasks: Map<Seq<char>, TaskSpec>,
    target: Seq<char>,
    s: Set<Seq<char>>,
) -> bool {
    &&& s.contains(target)
    &&& forall|name: Seq<char>| #[trigger] s.contains(name) ==> tasks.contains_key(name)
    &&& holds_deps(tasks, s)
    &&& forall|t: Set<Seq<char>>|
        t.contains(target) && #[trigger] holds_deps(tasks, t) ==> s.subset_of(t)
}

/// A task's needs in the graph are its needs among the tasks.
pub proof fn law_graph_needs_are_task_needs(
    g: TaskGraph,
    tasks: TextMap<TaskSpec>,
    target: Seq<char>,
    s: Set<Seq<char>>,
)
    requires
        g.wf(),
        tasks.wf(),
        g.represents(tasks),
        g.needs(target, s),
    ensures
        needed(tasks@, target, s),
{
    tasks.lemma_keys();
    assert forall|t: Set<Seq<char>>| #[trigger] holds_deps(tasks@, t) implies g.holds_dependencies(t) by {
        assert forall|i: int, j: int|
            0 <= i < g.deps@.len() && t.contains(g.nodes()[i]) && 0 <= j
                < g.deps@[i]@.len() implies t.contains(
            g.nodes()[(#[trigger] g.deps@[i]@[j]) as int],
        ) by {
            let name = tasks.keys()[i];
            assert(tasks.keys().contains(name));
            assert(tasks@.contains_key(name));
            let row = g.deps@[i];
            assert(t.contains(deps_of(tasks@, name)[j]));
        }
    }
    assert(holds_deps(tasks@, s)) by {
        assert forall|name: Seq<char>, j: int|
            tasks@.contains_key(name) && s.contains(name) && 0 <= j < deps_of(
                tasks@,
                name,
            ).len() implies s.contains(#[trigger] deps_of(tasks@, name)[j]) by {
            assert(tasks.keys().contains(name));
            let i = choose|i: int| 0 <= i < tasks.keys().len() && tasks.keys()[i] == name;
            let row = g.deps@[i];
            assert(s.contains(g.nodes()[(g.deps@[i]@[j]) as int]));
        }
    }
    assert forall|name: Seq<char>| #[trigger] s.contains(name) implies tasks@.contains_key(name) by {
        assert(g.nodes().contains(name));
    }
    assert forall|t: Set<Seq<char>>| t.contains(target) && #[trigger] holds_deps(
        tasks@,
        t,
    ) implies s.subset_of(t) by {
        assert(g.holds_dependencies(t));
    }
}

/// The names that are picked are those that are marked.
pub proof fn lemma_picked(names: Seq<Seq<char>>, marks: Seq<bool>, name: Seq<char>)
    requires
        marks.len() >= names.len(),
    ensures
        picked(names, marks).contains(name) <==> exists|i: int|
            0 <= i < names.len() && marks[i] && #[trigger] names[i] == name,
    decreases names.len(),
{
    let all = picked(names, marks);
    if names.len() > 0 {
        let front = picked(names.drop_last(), marks);
        lemma_picked(names.drop_last(), marks, name);
        if all.contains(name) {
            let a = choose|a: int| 0 <= a < all.len() && all[a] == name;
            if a < front.len() {
                assert(front[a] == name);
                assert(front.contains(name));
                let i = choose|i: int|
                    0 <= i < names.drop_last().len() && marks[i] && #[trigger] names.drop_last()[i]
                        == name;
                assert(names[i] == name);
            } else {
                assert(names[names.len() - 1] == name);
            }
        }
        if exists|i: int| 0 <= i < names.len() && marks[i] && #[trigger] names[i] == name {
            let i = choose|i: int| 0 <= i < names.len() && marks[i] && #[trigger] names[i] == name;
            if i < names.len() - 1 {
                assert(names.drop_last()[i] == name);
                assert(front.contains(name));
                let a = choose|a: int| 0 <= a < front.len() && front[a] == name;
                assert(all[a] == name);
            } else {
                assert(all[all.len() - 1] == name);
            }
        }
    }
}

/// The tasks that a name stands for in a workspace: the task it means and what
/// that needs, in ascending order. `None` when the name means no task, or the
/// tasks do not make up a graph.
pub fn required_tasks(config: &BroskiFile, name: &str) -> (r: Option<Vec<String>>)
    requires
        config.wf(),
    ensures
        match r {
            Some(names) => is_runnable(*config, name@) && needed(
                config.task@,
                config.task_named(name@).unwrap(),
                texts(names@).to_set(),
            ),
            None => !is_runnable(*config, name@),
        },
{
    let target = match config.resolve_task_name(name) {
        Some(target) => target,
        None => {
            return None;
        },
    };
    let graph = match TaskGraph::build(&config.task) {
        Ok(graph) => graph,
        Err(e) => {
            proof {
                if let GraphError::UnknownDependency { task, dependency } = e {
                    let j = choose|j: int|
                        0 <= j < deps_of(config.task@, task@).len() && deps_of(config.task@, task@)[j]
                            == dependency@;
                    assert(!config.task@.contains_key(deps_of(config.task@, task@)[j]));
                    assert(!all_known(config.task@));
                }
            }
            return None;
        },
    };
    match graph.required_tasks_for_target(target.as_str()) {
        Ok(names) => {
            proof {
                let s = choose|s: Set<Seq<char>>| #[trigger]
                    graph.needs(target@, s) && texts(names@) == picked(
                        graph.nodes(),
                        graph.marks(s),
                    );
                law_graph_needs_are_task_needs(graph, config.task, target@, s);
                assert forall|k: Seq<char>| texts(names@).to_set().contains(k) <==> s.contains(k) by {
                    lemma_picked(graph.nodes(), graph.marks(s), k);
                    if s.contains(k) {
                        assert(graph.nodes().contains(k));
                        let i = choose|i: int| 0 <= i < graph.nodes().len() && graph.nodes()[i] == k;
                        assert(graph.marks(s)[i]);
                        assert(graph.nodes()[i] == k);
                    }
                }
                assert(texts(names@).to_set() =~= s);
            }
            Some(names)
        },
        Err(_) => {
            proof {
                config.task.lemma_keys();
                assert(config.task@.contains_key(target@));
                assert(graph.nodes().contains(target@));
            }
            None
        },
    }
}

/// Whether the name means a task, every dependency is declared, and no tasks
/// depend on each other in a circle.
pub open spec fn is_runnable(config: BroskiFile, name: Seq<char>) -> bool {
    config.task_named(name) is Some && all_known(config.task@) && !has_circle(config.task@)
}

/// Whether the task stands in the layer.
pub open spec fn stands_in(layers: Seq<Vec<String>>, a: int, name: Seq<char>) -> bool {
    0 <= a < layers.len() && texts(layers[a]@).contains(name)
}

/// Whether the task stands in an earlier layer.
pub open spec fn stands_before(layers: Seq<Vec<String>>, a: int, name: Seq<char>) -> bool {
    exists|b: int| b < a && stands_in(layers, b, name)
}

/// A layer holds the needed tasks of its level.
proof fn lemma_layer(
    g: TaskGraph,
    layers: Seq<Vec<String>>,
    target: Seq<char>,
    s: Set<Seq<char>>,
    t: int,
    a: int,
    i: int,
)
    requires
        g.wf(),
        g.are_layers(layers, target, s, t),
        0 <= a < layers.len(),
        0 <= i < g.deps@.len(),
    ensures
        stands_in(layers, a, g.nodes()[i]) <==> s.contains(g.nodes()[i]) && g.levels@[i] == a,
{
    let name = g.nodes()[i];
    let marks = g.level_marks(s, a);
    assert(texts(layers[a]@) == picked(g.nodes(), marks));
    lemma_picked(g.nodes(), marks, name);
    if stands_in(layers, a, name) {
        let k = choose|k: int| 0 <= k < g.nodes().len() && marks[k] && #[trigger] g.nodes()[k] == name;
        assert(k == i);
    }
    if s.contains(name) && g.levels@[i] == a {
        assert(marks[i]);
        assert(g.nodes()[i] == name);
    }
}

/// The layers of a target hold what the target needs, itself among it, each task in one
/// layer. What a task depends on stands in earlier layers, and one of these is the layer
/// just before its own, so that no task waits longer than it has to. The target stands in
/// the last layer.
pub proof fn law_layers_order_the_tasks(
    g: TaskGraph,
    tasks: TextMap<TaskSpec>,
    layers: Seq<Vec<String>>,
    target: Seq<char>,
)
    requires
        g.wf(),
        tasks.wf(),
        g.represents(tasks),
        g.in_layers(layers, target),
    ensures
        layers.len() > 0,
        stands_in(layers, layers.len() - 1, target),
        exists|s: Set<Seq<char>>| #[trigger]
            needed(tasks@, target, s) && forall|name: Seq<char>| #[trigger]
                s.contains(name) <==> exists|a: int| stands_in(layers, a, name),
        forall|a: int, b: int, name: Seq<char>| #[trigger]
            stands_in(layers, a, name) && #[trigger] stands_in(layers, b, name) ==> a == b,
        forall|a: int, name: Seq<char>, j: int|
            #![trigger stands_in(layers, a, name), tasks@[name].deps@[j]]
            stands_in(layers, a, name) && 0 <= j < tasks@[name].deps@.len() ==> stands_before(
                layers,
                a,
                tasks@[name].deps@[j]@,
            ),
        forall|a: int, name: Seq<char>| #[trigger]
            stands_in(layers, a, name) && a > 0 ==> exists|j: int|
                0 <= j < tasks@[name].deps@.len() && stands_in(
                    layers,
                    a - 1,
                    (#[trigger] tasks@[name].deps@[j])@,
                ),
{
    let (s, t) = choose|s: Set<Seq<char>>, t: int| g.are_layers(layers, target, s, t);
    tasks.lemma_keys();
    law_graph_needs_are_task_needs(g, tasks, target, s);
    lemma_layer(g, layers, target, s, t, layers.len() - 1, t);
    assert forall|name: Seq<char>| #[trigger] s.contains(name) <==> exists|a: int|
        stands_in(layers, a, name) by {
        if s.contains(name) {
            assert(g.nodes().contains(name));
            let i = choose|i: int| 0 <= i < g.nodes().len() && g.nodes()[i] == name;
            law_target_is_highest(g, t, s, i);
            lemma_layer(g, layers, target, s, t, g.levels@[i] as int, i);
            assert(stands_in(layers, g.levels@[i] as int, name));
        }
        if exists|a: int| stands_in(layers, a, name) {
            let a = choose|a: int| stands_in(layers, a, name);
            let i = lemma_stands_in(g, layers, target, s, t, a, name);
        }
    }
    assert(needed(tasks@, target, s));
    assert forall|a: int, b: int, name: Seq<char>| #[trigger]
        stands_in(layers, a, name) && #[trigger] stands_in(layers, b, name) implies a == b by {
        let i = lemma_stands_in(g, layers, target, s, t, a, name);
        let k = lemma_stands_in(g, layers, target, s, t, b, name);
        assert(i == k);
    }
    assert forall|a: int, name: Seq<char>, j: int|
        #![trigger stands_in(layers, a, name), tasks@[name].deps@[j]]
        stands_in(layers, a, name) && 0 <= j < tasks@[name].deps@.len() implies stands_before(
        layers,
        a,
        tasks@[name].deps@[j]@,
    ) by {
        let i = lemma_stands_in(g, layers, target, s, t, a, name);
        let row = g.deps@[i];
        assert(deps_of(tasks@, name)[j] == tasks@[name].deps@[j]@);
        let d = g.deps@[i]@[j] as int;
        law_dependencies_come_first(g, target, s, i, j);
        law_target_is_highest(g, t, s, d);
        lemma_layer(g, layers, target, s, t, g.levels@[d] as int, d);
        assert(g.nodes()[d] == tasks@[name].deps@[j]@);
        assert(stands_in(layers, g.levels@[d] as int, tasks@[name].deps@[j]@));
    }
    assert forall|a: int, name: Seq<char>| #[trigger] stands_in(layers, a, name) && a > 0 implies exists|
        j: int,
    |
        0 <= j < tasks@[name].deps@.len() && stands_in(
            layers,
            a - 1,
            (#[trigger] tasks@[name].deps@[j])@,
        ) by {
        let i = lemma_stands_in(g, layers, target, s, t, a, name);
        assert(rests_on(g.deps@, g.levels@, i, a - 1));
        let j = choose|j: int|
            0 <= j < g.deps@[i]@.len() && g.levels@[(#[trigger] g.deps@[i]@[j]) as int] == a - 1;
        let row = g.deps@[i];
        assert(deps_of(tasks@, name)[j] == tasks@[name].deps@[j]@);
        let d = g.deps@[i]@[j] as int;
        law_dependencies_come_first(g, target, s, i, j);
        lemma_layer(g, layers, target, s, t, a - 1, d);
        assert(g.nodes()[d] == tasks@[name].deps@[j]@);
        assert(stands_in(layers, a - 1, tasks@[name].deps@[j]@));
    }
}

/// What stands in a layer is a needed task of that level.
proof fn lemma_stands_in(
    g: TaskGraph,
    layers: Seq<Vec<String>>,
    target: Seq<char>,
    s: Set<Seq<char>>,
    t: int,
    a: int,
    name: Seq<char>,
) -> (i: int)
    requires
        g.wf(),
        g.are_layers(layers, target, s, t),
        stands_in(layers, a, name),
    ensures
        0 <= i < g.deps@.len(),
        g.nodes()[i] == name,
        s.contains(name),
        g.levels@[i] == a,
{
    let marks = g.level_marks(s, a);
    assert(texts(layers[a]@) == picked(g.nodes(), marks));
    lemma_picked(g.nodes(), marks, name);
    let i = choose|i: int| 0 <= i < g.nodes().len() && marks[i] && #[trigger] g.nodes()[i] == name;
    lemma_layer(g, layers, target, s, t, a, i);
    i
}

/// A set of needed tasks has no task that could be left out: each but the target is what
/// another of them depends on.
pub proof fn law_every_needed_task_is_used(
    tasks: Map<Seq<char>, TaskSpec>,
    target: Seq<char>,
    s: Set<Seq<char>>,
    name: Seq<char>,
)
    requires
        needed(tasks, target, s),
        s.contains(name),
        name != target,
    ensures
        exists|user: Seq<char>, j: int|
            #![trigger tasks[user].deps@[j]]
            s.contains(user) && user != name && 0 <= j < tasks[user].deps@.len()
                && tasks[user].deps@[j]@ == name,
{
    let rest = s.remove(name);
    if holds_deps(tasks, rest) {
        assert(rest.contains(target));
        assert(s.subset_of(rest));
        assert(rest.contains(name));
    }
    let (user, j) = choose|user: Seq<char>, j: int|
        tasks.contains_key(user) && rest.contains(user) && 0 <= j < deps_of(tasks, user).len()
            && !rest.contains(#[trigger] deps_of(tasks, user)[j]);
    assert(s.contains(deps_of(tasks, user)[j]));
    assert(deps_of(tasks, user)[j] == tasks[user].deps@[j]@);
}

/// The tasks make up a graph exactly when every dependency is declared and no tasks depend on
/// each other in a circle. An undeclared dependency is named with a task that has it; a circle
/// is told only where every dependency is declared. The graph has every task once, in the
/// order of the keys.
pub proof fn law_when_tasks_make_up_a_graph(tasks: TextMap<TaskSpec>, r: Result<TaskGraph, GraphError>, all: Vec<String>)
    requires
        tasks.wf(),
        call_ensures(TaskGraph::build, (&tasks,), r),
        r matches Ok(g) ==> call_ensures(TaskGraph::all_tasks_sorted, (&g,), all),
    ensures
        r is Ok ==> all_known(tasks@) && !has_circle(tasks@),
        r matches Ok(g) ==> g.wf() && g.represents(tasks) && texts(all@) == tasks.keys(),
        all_known(tasks@) && !has_circle(tasks@) ==> r is Ok,
        all_known(tasks@) && has_circle(tasks@) ==> r == Err::<TaskGraph, GraphError>(GraphError::Cycle),
        !all_known(tasks@) ==> (r matches Err(GraphError::UnknownDependency { task, dependency }) && {
            &&& tasks@.contains_key(task@)
            &&& !tasks@.contains_key(dependency@)
            &&& exists|j: int|
                0 <= j < tasks@[task@].deps@.len() && (#[trigger] tasks@[task@].deps@[j])@ == dependency@
        }),
{
    if let Err(GraphError::UnknownDependency { task, dependency }) = r {
        let deps = deps_of(tasks@, task@);
        let j = choose|j: int| 0 <= j < deps.len() && deps[j] == dependency@;
        assert(tasks@[task@].deps@[j]@ == dependency@);
        assert(!all_known(tasks@)) by {
            if all_known(tasks@) {
                assert(tasks@.contains_key(deps_of(tasks@, task@)[j]));
            }
        }
    }
}

/// A target that is in the graph has its tasks laid out, and any other is an error that names
/// it. The tasks that are needed are told in ascending order, the target among them.
pub proof fn law_targets_are_looked_up(
    g: TaskGraph,
    target: &str,
    names: Result<Vec<String>, GraphError>,
    layers: Result<Vec<Vec<String>>, GraphError>,
)
    requires
        g.wf(),
        call_ensures(TaskGraph::required_tasks_for_target, (&g, target), names),
        call_ensures(TaskGraph::layers_for_target, (&g, target), layers),
    ensures
        names is Ok <==> g.nodes().contains(target@),
        layers is Ok <==> g.nodes().contains(target@),
        names matches Err(e) ==> (e matches GraphError::UnknownTask { task } && task@ == target@),
        layers matches Err(e) ==> (e matches GraphError::UnknownTask { task } && task@ == target@),
        layers matches Ok(told) ==> g.in_layers(told@, target@),
        names matches Ok(told) ==> exists|s: Set<Seq<char>>| #[trigger]
            g.needs(target@, s) && forall|name: Seq<char>| #[trigger]
                texts(told@).contains(name) <==> s.contains(name),
{
    if let Ok(told) = names {
        let s = choose|s: Set<Seq<char>>| #[trigger]
            g.needs(target@, s) && texts(told@) == picked(g.nodes(), g.marks(s));
        assert(s.contains(target@));
        assert forall|name: Seq<char>| #[trigger] texts(told@).contains(name) <==> s.contains(name) by {
            let marks = g.marks(s);
            lemma_picked(g.nodes(), marks, name);
            if s.contains(name) {
                assert(g.nodes().contains(name));
                let k = choose|k: int| 0 <= k < g.nodes().len() && g.nodes()[k] == name;
                assert(marks[k]);
                assert(g.nodes()[k] == name);
            }
        }
    }
    if let Ok(told) = layers {
        let (s, t) = choose|s: Set<Seq<char>>, t: int| g.are_layers(told@, target@, s, t);
        assert(g.are_layers(told@, target@, s, t));
    }
}

/// What a name needs is told where the name means a task and the tasks make up a graph: that
/// task and what it depends on, and nothing else.
pub proof fn law_name_needs_its_tasks(config: BroskiFile, name: &str, r: Option<Vec<String>>)
    requires
        config.wf(),
        call_ensures(required_tasks, (&config, name), r),
    ensures
        r is Some <==> is_runnable(config, name@),
        r matches Some(names) ==> needed(
            config.task@,
            config.task_named(name@).unwrap(),
            texts(names@).to_set(),
        ) && texts(names@).contains(config.task_named(name@).unwrap()),
{
}

/// What is said of tasks that make up no graph, or of one that is not in it, names the tasks.
pub proof fn law_graph_errors_are_told(task: String, dependency: String, a: String, b: String)
    requires
        call_ensures(GraphError::message, (&(GraphError::UnknownDependency { task, dependency }),), a),
        call_ensures(GraphError::message, (&(GraphError::UnknownTask { task }),), b),
    ensures
        a@ == "task '"@ + task@ + "' depends on unknown task '"@ + dependency@ + "'"@,
        b@ == "task '"@ + task@ + "' not found"@,
{
}

/// Picking keeps the order of the names.
proof fn lemma_picked_ascends(names: Seq<Seq<char>>, marks: Seq<bool>)
    requires
        names.len() <= marks.len(),
        forall|i: int, j: int| 0 <= i < j < names.len() ==> before(#[trigger] names[i], #[trigger] names[j]),
    ensures
        forall|i: int, j: int|
            0 <= i < j < picked(names, marks).len() ==> before(
                #[trigger] picked(names, marks)[i],
                #[trigger] picked(names, marks)[j],
            ),
    decreases names.len(),
{
    if names.len() > 0 {
        let front = names.drop_last();
        lemma_picked_ascends(front, marks);
        let was = picked(front, marks);
        let now = picked(names, marks);
        assert forall|i: int, j: int| 0 <= i < j < now.len() implies before(
            #[trigger] now[i],
            #[trigger] now[j],
        ) by {
            if j < was.len() {
                assert(before(was[i], was[j]));
            } else {
                assert(was.contains(was[i]));
                lemma_picked(front, marks, was[i]);
                let k = choose|k: int| 0 <= k < front.len() && marks[k] && #[trigger] front[k] == was[i];
                assert(before(names[k], names[names.len() - 1]));
            }
        }
    }
}

/// The tasks of a layer, and the tasks that a target needs, come in ascending order of their
/// names.
pub proof fn law_needed_tasks_come_in_order(
    tasks: TextMap<TaskSpec>,
    g: TaskGraph,
    target: &str,
    layers: Result<Vec<Vec<String>>, GraphError>,
    names: Result<Vec<String>, GraphError>,
    a: int,
    i: int,
    j: int,
)
    requires
        tasks.wf(),
        g.wf(),
        g.represents(tasks),
        call_ensures(TaskGraph::layers_for_target, (&g, target), layers),
        call_ensures(TaskGraph::required_tasks_for_target, (&g, target), names),
    ensures
        layers matches Ok(told) ==> 0 <= a < told@.len() && 0 <= i < j < told@[a]@.len() ==> before(
            told@[a]@[i]@,
            told@[a]@[j]@,
        ),
        names matches Ok(told) ==> 0 <= i < j < told@.len() ==> before(told@[i]@, told@[j]@),
{
    tasks.lemma_keys();
    if let Ok(told) = layers {
        let (s, t) = choose|s: Set<Seq<char>>, t: int| g.are_layers(told@, target@, s, t);
        assert(g.are_layers(told@, target@, s, t));
        if 0 <= a < told@.len() && 0 <= i < j < told@[a]@.len() {
            let marks = g.level_marks(s, a);
            lemma_picked_ascends(g.nodes(), marks);
            let row = texts(told@[a]@);
            assert(row == picked(g.nodes(), marks));
            assert(row[i] == told@[a]@[i]@ && row[j] == told@[a]@[j]@);
            assert(before(row[i], row[j]));
        }
    }
    if let Ok(told) = names {
        let s = choose|s: Set<Seq<char>>| #[trigger]
            g.needs(target@, s) && texts(told@) == picked(g.nodes(), g.marks(s));
        lemma_picked_ascends(g.nodes(), g.marks(s));
        if 0 <= i < j < told@.len() {
            let row = texts(told@);
            assert(row[i] == told@[i]@ && row[j] == told@[j]@);
            assert(before(row[i], row[j]));
        }
    }
}

/// Tasks of which each depends on the next, and the last on the first, make up no graph.
pub proof fn law_circle_is_found(tasks: TextMap<TaskSpec>, chain: Seq<Seq<char>>, r: Result<TaskGraph, GraphError>)
    requires
        tasks.wf(),
        call_ensures(TaskGraph::build, (&tasks,), r),
        chain.len() > 0,
        forall|i: int| 0 <= i < chain.len() ==> tasks@.contains_key(#[trigger] chain[i]),
        forall|i: int|
            0 <= i < chain.len() ==> depends_on(tasks@, #[trigger] chain[i], if i + 1 < chain.len() {
                chain[i + 1]
            } else {
                chain[0]
            }),
    ensures
        has_circle(tasks@),
        r is Err,
{
    let s = chain.to_set();
    assert(s.contains(chain[0]));
    assert forall|name: Seq<char>| #[trigger] s.contains(name) implies tasks@.contains_key(name) && exists|
        j: int,
    |
        0 <= j < deps_of(tasks@, name).len() && s.contains(#[trigger] deps_of(tasks@, name)[j]) by {
        let i = choose|i: int| 0 <= i < chain.len() && chain[i] == name;
        let next = if i + 1 < chain.len() {
            chain[i + 1]
        } else {
            chain[0]
        };
        assert(depends_on(tasks@, chain[i], next));
        let j = choose|j: int| 0 <= j < tasks@[name].deps@.len() && (#[trigger] tasks@[name].deps@[j])@ == next;
        assert(deps_of(tasks@, name)[j] == next);
        assert(chain.contains(next));
    }
    assert(is_circle(tasks@, s));
}

/// Whether the task names the other one among its dependencies.
pub open spec fn depends_on(tasks: Map<Seq<char>, TaskSpec>, task: Seq<char>, other: Seq<char>) -> bool {
    exists|j: int| 0 <= j < tasks[task].deps@.len() && (#[trigger] tasks[task].deps@[j])@ == other
}

/// What a target needs holds the target and, with each task, all that the task depends on; and
/// it is the least that does.
pub proof fn law_needs_hold_the_dependencies(
    tasks: Map<Seq<char>, TaskSpec>,
    target: Seq<char>,
    s: Set<Seq<char>>,
    name: Seq<char>,
    other: Seq<char>,
)
    requires
        needed(tasks, target, s),
    ensures
        s.contains(target),
        s.contains(name) ==> tasks.contains_key(name),
        s.contains(name) && depends_on(tasks, name, other) ==> s.contains(other),
        forall|t: Set<Seq<char>>|
            t.contains(target) && (forall|a: Seq<char>, b: Seq<char>|
                t.contains(a) && #[trigger] depends_on(tasks, a, b) ==> t.contains(b))
                ==> #[trigger] s.subset_of(t),
{
    if s.contains(name) && depends_on(tasks, name, other) {
        let j = choose|j: int| 0 <= j < tasks[name].deps@.len() && (#[trigger] tasks[name].deps@[j])@ == other;
        assert(deps_of(tasks, name)[j] == other);
    }
    assert forall|t: Set<Seq<char>>|
        t.contains(target) && (forall|a: Seq<char>, b: Seq<char>|
            t.contains(a) && #[trigger] depends_on(tasks, a, b) ==> t.contains(b)) implies #[trigger] s.subset_of(
        t,
    ) by {
        assert(holds_deps(tasks, t)) by {
            assert forall|a: Seq<char>, j: int|
                tasks.contains_key(a) && t.contains(a) && 0 <= j < deps_of(tasks, a).len() implies t.contains(
                #[trigger] deps_of(tasks, a)[j],
            ) by {
                assert(tasks[a].deps@[j]@ == deps_of(tasks, a)[j]);
                assert(depends_on(tasks, a, deps_of(tasks, a)[j]));
            }
        }
    }
}

} // verus!
