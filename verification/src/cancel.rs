//! Cancelling a run.
//!
//! A cancel comes at one of two levels. A soft one has the tasks that have not
//! started skipped; a hard one also names the children that are to be sent a
//! termination signal.

use vstd::prelude::*;

verus! {

/// How hard a run is cancelled.
#[derive(Debug, Clone, Copy, PartialEq, Eq, Structural)]
pub enum CancelLevel {
    /// Skip the tasks that have not started. Running children are left alone.
    Soft,
    /// Skip the tasks that have not started and terminate the running children.
    Hard,
}

/// Whether a run is cancelled, and which children it has.
#[derive(Debug)]
pub struct CancellationToken {
    cancelled: bool,
    children: Vec<u32>,
}

/// The processes to signal: the children whose number is not zero, as the
/// system's signed numbers.
pub open spec fn signalled(children: Seq<u32>) -> Seq<i32>
    decreases children.len(),
{
    if children.len() == 0 {
        Seq::empty()
    } else if children.last() == 0 {
        signalled(children.drop_last())
    } else {
        signalled(children.drop_last()).push(children.last() as i32)
    }
}

/// The list without `pid`, the others in their order.
pub open spec fn without(children: Seq<u32>, pid: u32) -> Seq<u32>
    decreases children.len(),
{
    if children.len() == 0 {
        Seq::empty()
    } else if children.last() == pid {
        without(children.drop_last(), pid)
    } else {
        without(children.drop_last(), pid).push(children.last())
    }
}

impl CancellationToken {
    /// Whether a cancel was issued.
    pub closed spec fn is_set(&self) -> bool {
        self.cancelled
    }

    /// The children, in the order in which they were registered.
    pub closed spec fn running(&self) -> Seq<u32> {
        self.children@
    }

    /// A token of a run that is not cancelled and has no children.
    pub fn new() -> (r: CancellationToken)
        ensures
            !r.is_set(),
            r.running() == Seq::<u32>::empty(),
    {
        CancellationToken { cancelled: false, children: Vec::new() }
    }

    /// Whether a cancel was issued, at whichever level.
    pub fn is_cancelled(&self) -> (r: bool)
        ensures
            r == self.is_set(),
    {
        self.cancelled
    }

    /// Cancels the run and names the processes that are to be signalled. A token
    /// that was cancelled stays so.
    pub fn cancel(&mut self, level: CancelLevel) -> (r: Vec<i32>)
        ensures
            final(self).is_set(),
            final(self).running() == old(self).running(),
            r@ == (if level == CancelLevel::Hard {
                signalled(old(self).running())
            } else {
                Seq::empty()
            }),
    {
        self.cancelled = true;
        if level == CancelLevel::Hard {
            self.signal_registered_children()
        } else {
            Vec::new()
        }
    }

    /// The processes that a hard cancel signals.
    fn signal_registered_children(&self) -> (r: Vec<i32>)
        ensures
            r@ == signalled(self.running()),
    {
        let mut r: Vec<i32> = Vec::new();
        let mut i: usize = 0;
        while i < self.children.len()
            invariant
                i <= self.children.len(),
                r@ == signalled(self.children@.take(i as int)),
            decreases self.children.len() - i,
        {
            let pid: u32 = self.children[i];
            assert(self.children@.take(i + 1).drop_last() =~= self.children@.take(i as int));
            if pid != 0 {
                r.push(pid as i32);
            }
            i += 1;
        }
        assert(self.children@.take(self.children@.len() as int) =~= self.children@);
        r
    }

    /// Registers a child, so that a hard cancel signals it.
    pub fn register_child(&mut self, pid: u32)
        ensures
            final(self).is_set() == old(self).is_set(),
            final(self).running() == old(self).running().push(pid),
    {
        self.children.push(pid);
    }

    /// Forgets a child, as often as it was registered.
    pub fn unregister_child(&mut self, pid: u32)
        ensures
            final(self).is_set() == old(self).is_set(),
            final(self).running() == without(old(self).running(), pid),
    {
        let mut kept: Vec<u32> = Vec::new();
        let mut i: usize = 0;
        while i < self.children.len()
            invariant
                i <= self.children.len(),
                kept@ == without(self.children@.take(i as int), pid),
            decreases self.children.len() - i,
        {
            let child: u32 = self.children[i];
            assert(self.children@.take(i + 1).drop_last() =~= self.children@.take(i as int));
            if child != pid {
                kept.push(child);
            }
            i += 1;
        }
        assert(self.children@.take(self.children@.len() as int) =~= self.children@);
        self.children = kept;
    }

    /// The children, in the order in which they were registered.
    pub fn registered_children(&self) -> (r: Vec<u32>)
        ensures
            r@ == self.running(),
    {
        let mut r: Vec<u32> = Vec::new();
        let mut i: usize = 0;
        while i < self.children.len()
            invariant
                i <= self.children.len(),
                r@ == self.children@.take(i as int),
            decreases self.children.len() - i,
        {
            r.push(self.children[i]);
            assert(self.children@.take(i + 1) =~= self.children@.take(i as int).push(
                self.children@[i as int],
            ));
            i += 1;
        }
        assert(self.children@.take(self.children@.len() as int) =~= self.children@);
        r
    }
}

impl Default for CancellationToken {
    fn default() -> (r: CancellationToken)
        ensures
            !r.is_set(),
            r.running() == Seq::<u32>::empty(),
    {
        CancellationToken::new()
    }
}

/// A call that may change a token.
pub ghost enum TokenCall {
    Cancel(CancelLevel),
    Register(u32),
    Unregister(u32),
}

/// Whether the call may turn the one token into the other.
pub open spec fn turns(before: CancellationToken, call: TokenCall, after: CancellationToken) -> bool {
    match call {
        TokenCall::Cancel(_) => after.is_set() && after.running() == before.running(),
        TokenCall::Register(pid) => {
            &&& after.is_set() == before.is_set()
            &&& after.running() == before.running().push(pid)
        },
        TokenCall::Unregister(pid) => {
            &&& after.is_set() == before.is_set()
            &&& after.running() == without(before.running(), pid)
        },
    }
}

/// Whether the tokens are what the calls make of a new one, each call made on
/// what the call before it left. Those who share a token make their calls one at
/// a time, so the calls are those of all of them, in the order in which they
/// came.
pub open spec fn is_token_history(tokens: Seq<CancellationToken>, calls: Seq<TokenCall>) -> bool {
    &&& tokens.len() == calls.len() + 1
    &&& !tokens[0].is_set()
    &&& tokens[0].running() == Seq::<u32>::empty()
    &&& forall|k: int|
        0 <= k < calls.len() ==> turns(tokens[k], calls[k], #[trigger] tokens[k + 1])
}

/// Whether one of the calls is a cancel, at whichever level.
pub open spec fn some_cancel(calls: Seq<TokenCall>) -> bool {
    exists|i: int| 0 <= i < calls.len() && (#[trigger] calls[i]) is Cancel
}

/// Whatever calls were made, and whoever of those who share the token made them,
/// it is cancelled exactly when one of them was a cancel, and a token that is
/// cancelled stays so.
pub proof fn law_cancelled_token_stays_cancelled(
    tokens: Seq<CancellationToken>,
    calls: Seq<TokenCall>,
)
    requires
        is_token_history(tokens, calls),
    ensures
        forall|k: int|
            0 <= k < tokens.len() ==> (#[trigger] tokens[k].is_set() <==> some_cancel(calls.take(k))),
        forall|k: int, later: int|
            0 <= k <= later < tokens.len() && #[trigger] tokens[k].is_set()
                ==> #[trigger] tokens[later].is_set(),
{
    assert forall|k: int| 0 <= k < tokens.len() implies (#[trigger] tokens[k].is_set()
        <==> some_cancel(calls.take(k))) by {
        lemma_cancelled_when(tokens, calls, k);
    }
    assert forall|k: int, later: int|
        0 <= k <= later < tokens.len() && #[trigger] tokens[k].is_set() implies #[trigger]
        tokens[later].is_set() by {
        let i = choose|i: int| 0 <= i < k && (#[trigger] calls.take(k)[i]) is Cancel;
        assert(calls.take(later)[i] is Cancel);
    }
}

proof fn lemma_cancelled_when(tokens: Seq<CancellationToken>, calls: Seq<TokenCall>, k: int)
    requires
        is_token_history(tokens, calls),
        0 <= k < tokens.len(),
    ensures
        tokens[k].is_set() <==> some_cancel(calls.take(k)),
    decreases k,
{
    if k > 0 {
        lemma_cancelled_when(tokens, calls, k - 1);
        assert(turns(tokens[k - 1], calls[k - 1], tokens[(k - 1) + 1]));
        if some_cancel(calls.take(k - 1)) {
            let i = choose|i: int| 0 <= i < k - 1 && (#[trigger] calls.take(k - 1)[i]) is Cancel;
            assert(calls.take(k)[i] is Cancel);
        }
        if calls[k - 1] is Cancel {
            assert(calls.take(k)[k - 1] is Cancel);
        }
        if some_cancel(calls.take(k)) && !(calls[k - 1] is Cancel) {
            let i = choose|i: int| 0 <= i < k && (#[trigger] calls.take(k)[i]) is Cancel;
            assert(calls.take(k - 1)[i] is Cancel);
        }
    }
}

/// Forgetting a child that was just registered undoes the registration, unless
/// the same number was registered before.
pub proof fn law_unregister_undoes_register(children: Seq<u32>, pid: u32)
    requires
        !children.contains(pid),
    ensures
        without(children.push(pid), pid) == children,
{
    assert(children.push(pid).drop_last() =~= children);
    law_unknown_child_is_no_change(children, pid);
}

/// Forgetting a child that is not registered changes nothing.
pub proof fn law_unknown_child_is_no_change(children: Seq<u32>, pid: u32)
    requires
        !children.contains(pid),
    ensures
        without(children, pid) == children,
    decreases children.len(),
{
    if children.len() > 0 {
        let front = children.drop_last();
        assert(!front.contains(pid)) by {
            if front.contains(pid) {
                let i = choose|i: int| 0 <= i < front.len() && front[i] == pid;
                assert(children[i] == pid);
            }
        }
        law_unknown_child_is_no_change(front, pid);
        assert(children[children.len() - 1] != pid);
        assert(front.push(children.last()) =~= children);
    } else {
        assert(without(children, pid) =~= children);
    }
}

/// A child that was forgotten is not signalled any more.
pub proof fn law_forgotten_child_is_not_signalled(children: Seq<u32>, pid: u32)
    ensures
        !without(children, pid).contains(pid),
    decreases children.len(),
{
    if children.len() > 0 {
        let rest = without(children.drop_last(), pid);
        law_forgotten_child_is_not_signalled(children.drop_last(), pid);
        if children.last() != pid {
            assert forall|i: int| 0 <= i < rest.push(children.last()).len() implies rest.push(
                children.last(),
            )[i] != pid by {
                if i < rest.len() {
                    assert(rest.contains(rest[i]));
                }
            }
        }
    }
}

/// A hard cancel signals every child that is registered under a number other than zero, in
/// the order in which they were registered, and nothing else.
pub proof fn law_every_child_is_signalled(children: Seq<u32>)
    ensures
        signalled(children) == children.filter(|pid: u32| pid != 0).map_values(|pid: u32| pid as i32),
    decreases children.len(),
{
    reveal(Seq::filter);
    let is_set = |pid: u32| pid != 0;
    let number = |pid: u32| pid as i32;
    if children.len() > 0 {
        let front = children.drop_last();
        law_every_child_is_signalled(front);
        assert(signalled(children) =~= children.filter(is_set).map_values(number));
    } else {
        assert(signalled(children) =~= children.filter(is_set).map_values(number));
    }
}

/// Forgetting a child leaves every other one, in their order.
pub proof fn law_other_children_stay(children: Seq<u32>, pid: u32)
    ensures
        without(children, pid) == children.filter(|child: u32| child != pid),
    decreases children.len(),
{
    reveal(Seq::filter);
    if children.len() > 0 {
        law_other_children_stay(children.drop_last(), pid);
    } else {
        assert(without(children, pid) =~= children.filter(|child: u32| child != pid));
    }
}

/// A cancel sets the token, and only a hard one names anyone: all children that are
/// registered. The children stay registered.
pub proof fn law_hard_cancel_names_the_children(token: &mut CancellationToken, level: CancelLevel, r: Vec<i32>)
    requires
        call_ensures(CancellationToken::cancel, (token, level), r),
    ensures
        final(token).is_set(),
        final(token).running() == old(token).running(),
        level == CancelLevel::Soft ==> r@.len() == 0,
        level == CancelLevel::Hard ==> r@ == old(token).running().filter(
            |pid: u32| pid != 0,
        ).map_values(|pid: u32| pid as i32),
{
    law_every_child_is_signalled(old(token).running());
}

/// The token tells whether it was cancelled, lists its children in the order in which they
/// were registered, and forgets a child without touching the others or the cancel.
pub proof fn law_children_of_a_token(
    grown: &mut CancellationToken,
    shrunk: &mut CancellationToken,
    token: CancellationToken,
    pid: u32,
    cancelled: bool,
    listed: Vec<u32>,
    fresh: CancellationToken,
)
    requires
        call_ensures(CancellationToken::register_child, (grown, pid), ()),
        call_ensures(CancellationToken::unregister_child, (shrunk, pid), ()),
        call_ensures(CancellationToken::is_cancelled, (&token,), cancelled),
        call_ensures(CancellationToken::registered_children, (&token,), listed),
        call_ensures(CancellationToken::new, (), fresh),
    ensures
        final(grown).running() == old(grown).running().push(pid),
        final(grown).is_set() == old(grown).is_set(),
        final(shrunk).running() == old(shrunk).running().filter(|child: u32| child != pid),
        final(shrunk).is_set() == old(shrunk).is_set(),
        cancelled == token.is_set(),
        listed@ == token.running(),
        !fresh.is_set(),
        fresh.running().len() == 0,
{
    law_other_children_stay(old(shrunk).running(), pid);
}

} // verus!
