//! Moving the outputs of a task from its stage to the workspace, all or none.
//!
//! First each output that is already there is set aside, then the new outputs
//! are moved in. When anything fails, what was moved in is cleared away and what
//! was set aside is put back. A [`Promotion`] names the next thing to do; the
//! application does it and tells what came of it.

use vstd::prelude::*;
use crate::files::agrees;

verus! {

/// Where one output stands, comes from and is set aside.
#[derive(Debug, Clone, PartialEq, Eq)]
pub struct Place {
    /// Its path from the workspace.
    pub output: String,
    /// Its place in the workspace.
    pub destination: String,
    /// Its place in the stage.
    pub staged: String,
    /// The place to which an earlier output is set aside.
    pub backup: String,
}

/// The next thing to do, with the number of the output that it is done to.
#[derive(Debug, Clone, Copy, PartialEq, Eq, Structural)]
pub enum PromoteCall {
    /// Tell whether the command produced the output.
    LookStaged(usize),
    /// Tell whether the output is already in the workspace.
    LookDestination(usize),
    /// Set the output in the workspace aside.
    BackUp(usize),
    /// Create the directory that the output goes to.
    MakeRoom(usize),
    /// Rename the output from the stage to the workspace.
    Move(usize),
    /// Copy the output from the stage to the workspace.
    CopyOver(usize),
    /// Remove the output from the stage.
    DropStaged(usize),
    /// Remove the output from the workspace.
    Clear(usize),
    /// Put the output that was set aside back.
    PutBack(usize),
    /// Nothing more.
    Finished,
}

/// What came of a call.
#[derive(Debug, Clone, PartialEq, Eq)]
pub enum PromoteReply {
    /// Whether something was found.
    Present(bool),
    Done,
    Failed(String),
}

/// The outputs of a task on their way to the workspace.
#[derive(Debug, Clone)]
pub struct Promotion {
    pub places: Vec<Place>,
    /// Which outputs were set aside.
    pub backed: Vec<bool>,
    pub call: PromoteCall,
    /// Why the outputs are not promoted.
    pub error: Option<String>,
    /// Whether everything that was to be undone could be undone.
    pub clean: bool,
    /// How many outputs are to be cleared away.
    pub until: usize,
}

/// The content of a [`Promotion`] but for its places.
pub ghost struct Progress {
    pub backed: Seq<bool>,
    pub call: PromoteCall,
    pub failed: bool,
    pub clean: bool,
    pub until: int,
}

/// The call that puts back the last of the first `k` outputs that was set aside.
pub open spec fn back_call(backed: Seq<bool>, k: int) -> PromoteCall
    decreases k,
{
    if k <= 0 {
        PromoteCall::Finished
    } else if backed[k - 1] {
        PromoteCall::PutBack((k - 1) as usize)
    } else {
        back_call(backed, k - 1)
    }
}

impl Progress {
    /// A failure after which the first `until` outputs are cleared away and what
    /// was set aside is put back.
    pub open spec fn undoing(self, until: int) -> Progress {
        Progress {
            call: if until > 0 {
                PromoteCall::Clear(0)
            } else {
                back_call(self.backed, self.backed.len() as int)
            },
            failed: true,
            until,
            ..self
        }
    }

    /// Output `i` is out of the way.
    pub open spec fn aside(self, i: usize) -> Progress {
        Progress {
            call: if i + 1 < self.backed.len() {
                PromoteCall::LookStaged((i + 1) as usize)
            } else {
                PromoteCall::MakeRoom(0)
            },
            ..self
        }
    }

    /// Output `i` is in place.
    pub open spec fn placed(self, i: usize) -> Progress {
        Progress {
            call: if i + 1 < self.backed.len() {
                PromoteCall::MakeRoom((i + 1) as usize)
            } else {
                PromoteCall::Finished
            },
            ..self
        }
    }

    /// What follows a reply. A call that asks whether something is there is
    /// answered with `yes`; any other went well when `yes` holds.
    pub open spec fn after(self, yes: bool) -> Progress {
        match self.call {
            PromoteCall::LookStaged(i) => if yes {
                Progress { call: PromoteCall::LookDestination(i), ..self }
            } else {
                self.undoing(0)
            },
            PromoteCall::LookDestination(i) => if yes {
                Progress { call: PromoteCall::BackUp(i), ..self }
            } else {
                self.aside(i)
            },
            PromoteCall::BackUp(i) => if yes {
                Progress { backed: self.backed.update(i as int, true), ..self }.aside(i)
            } else {
                self.undoing(0)
            },
            PromoteCall::MakeRoom(i) => if yes {
                Progress { call: PromoteCall::Move(i), ..self }
            } else {
                self.undoing(i + 1)
            },
            PromoteCall::Move(i) => if yes {
                self.placed(i)
            } else {
                Progress { call: PromoteCall::CopyOver(i), ..self }
            },
            PromoteCall::CopyOver(i) => if yes {
                Progress { call: PromoteCall::DropStaged(i), ..self }
            } else {
                self.undoing(i + 1)
            },
            PromoteCall::DropStaged(i) => if yes {
                self.placed(i)
            } else {
                self.undoing(i + 1)
            },
            PromoteCall::Clear(i) => Progress {
                call: if i + 1 < self.until {
                    PromoteCall::Clear((i + 1) as usize)
                } else {
                    back_call(self.backed, self.backed.len() as int)
                },
                clean: self.clean && yes,
                ..self
            },
            PromoteCall::PutBack(i) => Progress {
                call: back_call(self.backed, i as int),
                clean: self.clean && yes,
                ..self
            },
            PromoteCall::Finished => self,
        }
    }

    /// The numbers are those of outputs.
    pub open spec fn wf(self) -> bool {
        &&& 0 <= self.until <= self.backed.len()
        &&& match self.call {
            PromoteCall::LookStaged(i) => i < self.backed.len() && !self.failed,
            PromoteCall::LookDestination(i) => i < self.backed.len() && !self.failed,
            PromoteCall::BackUp(i) => i < self.backed.len() && !self.failed,
            PromoteCall::MakeRoom(i) => i < self.backed.len() && !self.failed,
            PromoteCall::Move(i) => i < self.backed.len() && !self.failed,
            PromoteCall::CopyOver(i) => i < self.backed.len() && !self.failed,
            PromoteCall::DropStaged(i) => i < self.backed.len() && !self.failed,
            PromoteCall::Clear(i) => i < self.until && self.failed,
            PromoteCall::PutBack(i) => i < self.backed.len() && self.backed[i as int] && self.failed,
            PromoteCall::Finished => true,
        }
    }
}

/// Whether the call asks whether something is there.
pub open spec fn is_look(call: PromoteCall) -> bool {
    call is LookStaged || call is LookDestination
}

/// Whether the reply is one to the call.
pub open spec fn is_reply(call: PromoteCall, reply: PromoteReply) -> bool {
    &&& call != PromoteCall::Finished
    &&& is_look(call) <==> reply is Present
}

/// Whether the reply says yes.
pub open spec fn says_yes(reply: PromoteReply) -> bool {
    reply == PromoteReply::Present(true) || reply == PromoteReply::Done
}

/// What is said when the call fails.
pub open spec fn error_text(places: Seq<Place>, call: PromoteCall, reply: PromoteReply) -> Seq<char> {
    match (call, reply) {
        (PromoteCall::LookStaged(i), _) => "declared output '"@ + places[i as int].output@
            + "' was not produced in staged execution"@,
        (_, PromoteReply::Failed(cause)) => cause@,
        _ => Seq::empty(),
    }
}

impl Promotion {
    /// How far the promotion has come.
    pub open spec fn progress(self) -> Progress {
        Progress {
            backed: self.backed@,
            call: self.call,
            failed: self.error is Some,
            clean: self.clean,
            until: self.until as int,
        }
    }

    /// Each output has its mark, and the numbers are those of outputs.
    pub open spec fn wf(self) -> bool {
        self.backed@.len() == self.places@.len() && self.progress().wf()
    }

    /// The beginning of a promotion.
    pub fn start(places: Vec<Place>) -> (r: Promotion)
        ensures
            r.wf(),
            r.places@ == places@,
            r.progress() == started(places@.len()),
    {
        let mut backed: Vec<bool> = Vec::new();
        let mut i: usize = 0;
        while i < places.len()
            invariant
                i <= places.len(),
                backed@ == Seq::new(i as nat, |k: int| false),
            decreases places.len() - i,
        {
            backed.push(false);
            i += 1;
            assert(backed@ =~= Seq::new(i as nat, |k: int| false));
        }
        let call = if places.len() > 0 {
            PromoteCall::LookStaged(0)
        } else {
            PromoteCall::Finished
        };
        Promotion { places, backed, call, error: None, clean: true, until: 0 }
    }

    /// The call that puts back the last of the first `k` outputs that was set
    /// aside.
    fn back_from(&self, k: usize) -> (r: PromoteCall)
        requires
            k <= self.backed@.len(),
        ensures
            r == back_call(self.backed@, k as int),
            r == PromoteCall::Finished || (r matches PromoteCall::PutBack(i) && i < k
                && self.backed@[i as int]),
    {
        let mut at: usize = k;
        while at > 0
            invariant
                at <= k <= self.backed@.len(),
                back_call(self.backed@, at as int) == back_call(self.backed@, k as int),
            decreases at,
        {
            if self.backed[at - 1] {
                return PromoteCall::PutBack(at - 1);
            }
            at -= 1;
        }
        PromoteCall::Finished
    }

    /// Begins to undo.
    fn undo(&mut self, text: String, until: usize)
        requires
            old(self).backed@.len() == old(self).places@.len(),
            until <= old(self).backed@.len(),
            old(self).error is None,
        ensures
            final(self).wf(),
            final(self).places@ == old(self).places@,
            final(self).progress() == old(self).progress().undoing(until as int),
            final(self).error matches Some(e) && e@ == text@,
    {
        self.call = if until > 0 {
            PromoteCall::Clear(0)
        } else {
            self.back_from(self.backed.len())
        };
        self.error = Some(text);
        self.until = until;
    }

    /// Takes a reply in and decides what is to be done next.
    pub fn next(&mut self, reply: PromoteReply)
        requires
            old(self).wf(),
            is_reply(old(self).call, reply),
        ensures
            final(self).wf(),
            final(self).places@ == old(self).places@,
            final(self).progress() == old(self).progress().after(says_yes(reply)),
            match (old(self).error, final(self).error) {
                (Some(e), Some(f)) => f@ == e@,
                (None, Some(f)) => f@ == error_text(old(self).places@, old(self).call, reply),
                (None, None) => true,
                (Some(_), None) => false,
            },
    {
        let n: usize = self.places.len();
        let yes = match &reply {
            PromoteReply::Present(found) => *found,
            PromoteReply::Done => true,
            PromoteReply::Failed(_) => false,
        };
        let cause = match reply {
            PromoteReply::Failed(cause) => cause,
            _ => String::new(),
        };
        match self.call {
            PromoteCall::LookStaged(i) => if yes {
                self.call = PromoteCall::LookDestination(i);
            } else {
                let mut text = "declared output '".to_owned();
                text.append(self.places[i].output.as_str());
                text.append("' was not produced in staged execution");
                self.undo(text, 0);
            },
            PromoteCall::LookDestination(i) => if yes {
                self.call = PromoteCall::BackUp(i);
            } else if i + 1 < n {
                self.call = PromoteCall::LookStaged(i + 1);
            } else {
                self.call = PromoteCall::MakeRoom(0);
            },
            PromoteCall::BackUp(i) => if yes {
                self.backed.set(i, true);
                if i + 1 < n {
                    self.call = PromoteCall::LookStaged(i + 1);
                } else {
                    self.call = PromoteCall::MakeRoom(0);
                }
            } else {
                self.undo(cause, 0);
            },
            PromoteCall::MakeRoom(i) => if yes {
                self.call = PromoteCall::Move(i);
            } else {
                self.undo(cause, i + 1);
            },
            PromoteCall::Move(i) => if !yes {
                self.call = PromoteCall::CopyOver(i);
            } else if i + 1 < n {
                self.call = PromoteCall::MakeRoom(i + 1);
            } else {
                self.call = PromoteCall::Finished;
            },
            PromoteCall::CopyOver(i) => if yes {
                self.call = PromoteCall::DropStaged(i);
            } else {
                self.undo(cause, i + 1);
            },
            PromoteCall::DropStaged(i) => if !yes {
                self.undo(cause, i + 1);
            } else if i + 1 < n {
                self.call = PromoteCall::MakeRoom(i + 1);
            } else {
                self.call = PromoteCall::Finished;
            },
            PromoteCall::Clear(i) => {
                self.call = if i + 1 < self.until {
                    PromoteCall::Clear(i + 1)
                } else {
                    self.back_from(self.backed.len())
                };
                self.clean = self.clean && yes;
            },
            PromoteCall::PutBack(i) => {
                self.call = self.back_from(i);
                self.clean = self.clean && yes;
            },
            PromoteCall::Finished => {},
        }
    }
}

/// The beginning of a promotion of `n` outputs.
pub open spec fn started(n: nat) -> Progress {
    Progress {
        backed: Seq::new(n, |k: int| false),
        call: if n > 0 {
            PromoteCall::LookStaged(0)
        } else {
            PromoteCall::Finished
        },
        failed: false,
        clean: true,
        until: 0,
    }
}

/// Whether the disks are the same but for what stands at the path.
pub open spec fn same_but<T>(a: Map<Seq<char>, T>, b: Map<Seq<char>, T>, path: Seq<char>) -> bool {
    forall|p: Seq<char>| p != path ==> #[trigger] agrees(a, b, p)
}

/// What a call makes of the disk, when each path is taken for the whole of what
/// stands there. `yes` is the answer, or whether the call went well; a copy or a
/// removal that fails may leave anything behind.
pub open spec fn effect<T>(
    places: Seq<Place>,
    call: PromoteCall,
    yes: bool,
    a: Map<Seq<char>, T>,
    b: Map<Seq<char>, T>,
) -> bool {
    match call {
        PromoteCall::LookStaged(i) => b == a && yes == a.contains_key(places[i as int].staged@),
        PromoteCall::LookDestination(i) => b == a && yes == a.contains_key(
            places[i as int].destination@,
        ),
        PromoteCall::BackUp(i) => {
            let p = places[i as int];
            if yes {
                a.contains_key(p.destination@) && b == a.remove(p.destination@).insert(
                    p.backup@,
                    a[p.destination@],
                )
            } else {
                b == a
            }
        },
        PromoteCall::MakeRoom(_) => b == a,
        PromoteCall::Move(i) => {
            let p = places[i as int];
            if yes {
                a.contains_key(p.staged@) && b == a.remove(p.staged@).insert(
                    p.destination@,
                    a[p.staged@],
                )
            } else {
                b == a
            }
        },
        PromoteCall::CopyOver(i) => {
            let p = places[i as int];
            if yes {
                a.contains_key(p.staged@) && b == a.insert(p.destination@, a[p.staged@])
            } else {
                same_but(a, b, p.destination@)
            }
        },
        PromoteCall::DropStaged(i) => {
            let p = places[i as int];
            if yes {
                b == a.remove(p.staged@)
            } else {
                same_but(a, b, p.staged@)
            }
        },
        PromoteCall::Clear(i) => {
            let p = places[i as int];
            if yes {
                b == a.remove(p.destination@)
            } else {
                same_but(a, b, p.destination@)
            }
        },
        PromoteCall::PutBack(i) => {
            let p = places[i as int];
            if yes && a.contains_key(p.backup@) {
                b == a.remove(p.backup@).insert(p.destination@, a[p.backup@])
            } else {
                b == a
            }
        },
        PromoteCall::Finished => b == a,
    }
}

/// Whether all the places are different ones.
pub open spec fn apart(places: Seq<Place>) -> bool {
    &&& forall|i: int, j: int|
        0 <= i < places.len() && 0 <= j < places.len() ==> {
            &&& (#[trigger] places[i]).destination@ != (#[trigger] places[j]).staged@
            &&& places[i].destination@ != places[j].backup@
            &&& places[i].staged@ != places[j].backup@
        }
    &&& forall|i: int, j: int|
        0 <= i < places.len() && 0 <= j < places.len() && i != j ==> {
            &&& (#[trigger] places[i]).destination@ != (#[trigger] places[j]).destination@
            &&& places[i].staged@ != places[j].staged@
            &&& places[i].backup@ != places[j].backup@
        }
}

/// Whether the path is none of the places.
pub open spec fn is_elsewhere(places: Seq<Place>, path: Seq<char>) -> bool {
    forall|i: int|
        0 <= i < places.len() ==> (#[trigger] places[i]).destination@ != path && places[i].staged@
            != path && places[i].backup@ != path
}

/// What stood in the workspace is set aside.
pub open spec fn set_aside<T>(p: Place, disk: Map<Seq<char>, T>, first: Map<Seq<char>, T>) -> bool {
    &&& first.contains_key(p.destination@)
    &&& disk.contains_key(p.backup@)
    &&& disk[p.backup@] == first[p.destination@]
}

/// The new output stands in the workspace.
pub open spec fn is_placed<T>(p: Place, disk: Map<Seq<char>, T>, first: Map<Seq<char>, T>) -> bool {
    &&& first.contains_key(p.staged@)
    &&& disk.contains_key(p.destination@)
    &&& disk[p.destination@] == first[p.staged@]
}

/// Output `i` while earlier outputs are being set aside; `looked` tells whether
/// it was looked at.
spec fn held_aside<T>(
    p: Place,
    backed: bool,
    looked: bool,
    disk: Map<Seq<char>, T>,
    first: Map<Seq<char>, T>,
) -> bool {
    &&& agrees(disk, first, p.staged@)
    &&& looked ==> first.contains_key(p.staged@)
    &&& if backed {
        looked && set_aside(p, disk, first) && !disk.contains_key(p.destination@)
    } else {
        agrees(disk, first, p.destination@) && (looked ==> !first.contains_key(p.destination@))
    }
}

/// Output `i` while the new outputs are being moved in.
spec fn held_ready<T>(
    p: Place,
    backed: bool,
    disk: Map<Seq<char>, T>,
    first: Map<Seq<char>, T>,
) -> bool {
    &&& first.contains_key(p.staged@)
    &&& if backed {
        set_aside(p, disk, first)
    } else {
        !first.contains_key(p.destination@)
    }
}

/// What holds of the disk at each point of a promotion that began with the disk
/// `first`.
spec fn holds<T>(
    places: Seq<Place>,
    g: Progress,
    disk: Map<Seq<char>, T>,
    first: Map<Seq<char>, T>,
) -> bool {
    &&& forall|path: Seq<char>| is_elsewhere(places, path) ==> #[trigger] agrees(disk, first, path)
    &&& match g.call {
        PromoteCall::LookStaged(j) => forall|i: int|
            0 <= i < places.len() ==> held_aside(#[trigger] places[i], g.backed[i], i < j, disk, first)
                && (i >= j ==> !g.backed[i]),
        PromoteCall::LookDestination(j) => first.contains_key(places[j as int].staged@) && forall|
            i: int,
        |
            0 <= i < places.len() ==> held_aside(#[trigger] places[i], g.backed[i], i < j, disk, first)
                && (i >= j ==> !g.backed[i]),
        PromoteCall::BackUp(j) => first.contains_key(places[j as int].staged@) && forall|i: int|
            0 <= i < places.len() ==> held_aside(#[trigger] places[i], g.backed[i], i < j, disk, first)
                && (i >= j ==> !g.backed[i]),
        PromoteCall::MakeRoom(j) => holds_moving(places, g, disk, first, j as int),
        PromoteCall::Move(j) => holds_moving(places, g, disk, first, j as int),
        PromoteCall::CopyOver(j) => holds_moving(places, g, disk, first, j as int),
        PromoteCall::DropStaged(j) => is_placed(places[j as int], disk, first) && forall|i: int|
            0 <= i < places.len() ==> {
                &&& held_ready(#[trigger] places[i], g.backed[i], disk, first)
                &&& i < j ==> is_placed(places[i], disk, first)
                &&& i > j ==> agrees(disk, first, places[i].staged@) && !disk.contains_key(
                    places[i].destination@,
                )
            },
        PromoteCall::Clear(j) => g.clean ==> forall|i: int|
            0 <= i < places.len() ==> {
                &&& held_ready(#[trigger] places[i], g.backed[i], disk, first)
                &&& i < j || i >= g.until ==> !disk.contains_key(places[i].destination@)
            },
        PromoteCall::PutBack(j) => g.clean ==> forall|i: int|
            0 <= i < places.len() ==> if g.backed[i] && i <= j {
                set_aside(#[trigger] places[i], disk, first) && !disk.contains_key(
                    places[i].destination@,
                )
            } else {
                agrees(disk, first, (#[trigger] places[i]).destination@)
            },
        PromoteCall::Finished => if g.failed {
            g.clean ==> forall|i: int|
                0 <= i < places.len() ==> agrees(disk, first, (#[trigger] places[i]).destination@)
        } else {
            forall|i: int| 0 <= i < places.len() ==> is_placed(#[trigger] places[i], disk, first)
        },
    }
}

/// What holds while output `j` is about to be moved in.
spec fn holds_moving<T>(
    places: Seq<Place>,
    g: Progress,
    disk: Map<Seq<char>, T>,
    first: Map<Seq<char>, T>,
    j: int,
) -> bool {
    forall|i: int|
        0 <= i < places.len() ==> {
            &&& held_ready(#[trigger] places[i], g.backed[i], disk, first)
            &&& i < j ==> is_placed(places[i], disk, first)
            &&& i >= j ==> agrees(disk, first, places[i].staged@) && !disk.contains_key(
                places[i].destination@,
            )
        }
}

/// The call that puts something back names an output that was set aside, behind
/// which none is left.
proof fn lemma_back_call(backed: Seq<bool>, k: int)
    requires
        0 <= k <= backed.len() <= usize::MAX,
    ensures
        match back_call(backed, k) {
            PromoteCall::PutBack(i) => i < k && backed[i as int] && forall|x: int|
                i < x < k ==> !backed[x],
            PromoteCall::Finished => forall|x: int| 0 <= x < k ==> !backed[x],
            _ => false,
        },
    decreases k,
{
    if k > 0 && !backed[k - 1] {
        lemma_back_call(backed, k - 1);
    }
}

/// Undoing begins with everything that was there either set aside or in place.
proof fn lemma_undoing<T>(
    places: Seq<Place>,
    g: Progress,
    disk: Map<Seq<char>, T>,
    first: Map<Seq<char>, T>,
    until: int,
)
    requires
        g.backed.len() == places.len() <= usize::MAX,
        0 <= until <= places.len(),
        forall|path: Seq<char>| is_elsewhere(places, path) ==> #[trigger] agrees(disk, first, path),
        g.clean,
        until == 0 ==> forall|i: int|
            0 <= i < places.len() ==> if g.backed[i] {
                set_aside(#[trigger] places[i], disk, first) && !disk.contains_key(
                    places[i].destination@,
                )
            } else {
                agrees(disk, first, (#[trigger] places[i]).destination@)
            },
        until > 0 ==> forall|i: int|
            0 <= i < places.len() ==> {
                &&& held_ready(#[trigger] places[i], g.backed[i], disk, first)
                &&& i >= until ==> !disk.contains_key(places[i].destination@)
            },
    ensures
        holds(places, g.undoing(until), disk, first),
{
    lemma_back_call(g.backed, g.backed.len() as int);
}

/// One step leaves every other path as it was.
#[verifier::spinoff_prover]
proof fn lemma_elsewhere<T>(
    places: Seq<Place>,
    g: Progress,
    yes: bool,
    a: Map<Seq<char>, T>,
    b: Map<Seq<char>, T>,
    first: Map<Seq<char>, T>,
)
    requires
        g.backed.len() == places.len() <= usize::MAX,
        g.wf(),
        holds(places, g, a, first),
        effect(places, g.call, yes, a, b),
    ensures
        forall|path: Seq<char>| is_elsewhere(places, path) ==> #[trigger] agrees(b, first, path),
{
    assert forall|path: Seq<char>| is_elsewhere(places, path) implies #[trigger] agrees(b, first, path) by {
        assert(agrees(a, first, path));
        match g.call {
            PromoteCall::CopyOver(j) => {
                assert(places[j as int].destination@ != path);
                if !yes {
                    assert(agrees(a, b, path));
                }
            },
            PromoteCall::DropStaged(j) => {
                assert(places[j as int].staged@ != path);
                if !yes {
                    assert(agrees(a, b, path));
                }
            },
            PromoteCall::Clear(j) => {
                assert(places[j as int].destination@ != path);
                if !yes {
                    assert(agrees(a, b, path));
                }
            },
            PromoteCall::BackUp(j) => {
                assert(places[j as int].destination@ != path);
            },
            PromoteCall::Move(j) => {
                assert(places[j as int].destination@ != path);
            },
            PromoteCall::PutBack(j) => {
                assert(places[j as int].destination@ != path);
            },
            _ => {},
        }
    }
}

/// One step keeps what holds of the disk.
#[verifier::spinoff_prover]
#[verifier::rlimit(60)]
proof fn lemma_step<T>(
    places: Seq<Place>,
    g: Progress,
    yes: bool,
    a: Map<Seq<char>, T>,
    b: Map<Seq<char>, T>,
    first: Map<Seq<char>, T>,
)
    requires
        apart(places),
        g.backed.len() == places.len() <= usize::MAX,
        g.wf(),
        !g.failed ==> g.clean,
        holds(places, g, a, first),
        effect(places, g.call, yes, a, b),
    ensures
        holds(places, g.after(yes), b, first),
        g.after(yes).wf(),
        g.after(yes).backed.len() == places.len(),
        !g.after(yes).failed ==> g.after(yes).clean,
{
    let h = g.after(yes);
    lemma_back_call(g.backed, g.backed.len() as int);
    lemma_elsewhere(places, g, yes, a, b, first);
    match g.call {
        PromoteCall::LookStaged(j) => {
            if !yes {
                lemma_undoing(places, g, b, first, 0);
            } else {
                let p = places[j as int];
                assert(agrees(a, first, p.staged@));
            }
        },
        PromoteCall::LookDestination(j) => {
            if !yes {
                let p = places[j as int];
                assert(agrees(a, first, p.destination@));
                lemma_aside(places, g, a, first, j as int);
            }
        },
        PromoteCall::BackUp(j) => {
            if yes {
                lemma_backed_up(places, g, a, b, first, j as int);
            } else {
                lemma_undoing(places, g, b, first, 0);
            }
        },
        PromoteCall::MakeRoom(j) => {
            if !yes {
                lemma_undoing(places, g, b, first, j + 1);
            }
        },
        PromoteCall::Move(j) => {
            if yes {
                lemma_moved(places, g, a, b, first, j as int);
            }
        },
        PromoteCall::CopyOver(j) => {
            lemma_copied(places, g, yes, a, b, first, j as int);
        },
        PromoteCall::DropStaged(j) => {
            lemma_dropped(places, g, yes, a, b, first, j as int);
        },
        PromoteCall::Clear(j) => {
            if h.clean {
                lemma_cleared(places, g, a, b, first, j as int);
            }
        },
        PromoteCall::PutBack(j) => {
            lemma_back_call(g.backed, j as int);
            if h.clean {
                lemma_put_back(places, g, a, b, first, j as int);
            }
        },
        PromoteCall::Finished => {},
    }
}

proof fn lemma_aside<T>(
    places: Seq<Place>,
    g: Progress,
    disk: Map<Seq<char>, T>,
    first: Map<Seq<char>, T>,
    j: int,
)
    requires
        g.backed.len() == places.len() <= usize::MAX,
        0 <= j < places.len(),
        forall|path: Seq<char>| is_elsewhere(places, path) ==> #[trigger] agrees(disk, first, path),
        forall|i: int|
            0 <= i < places.len() ==> held_aside(
                #[trigger] places[i],
                g.backed[i],
                i < j,
                disk,
                first,
            ) && (i >= j ==> !g.backed[i]),
        first.contains_key(places[j].staged@),
        !first.contains_key(places[j].destination@),
    ensures
        holds(places, g.aside(j as usize), disk, first),
{
    if j + 1 < places.len() {
        assert forall|i: int| 0 <= i < places.len() implies held_aside(
            #[trigger] places[i],
            g.backed[i],
            i < j + 1,
            disk,
            first,
        ) && (i >= j + 1 ==> !g.backed[i]) by {
            assert(held_aside(places[i], g.backed[i], i < j, disk, first));
        }
    } else {
        assert forall|i: int| 0 <= i < places.len() implies {
            &&& held_ready(#[trigger] places[i], g.backed[i], disk, first)
            &&& agrees(disk, first, places[i].staged@) && !disk.contains_key(places[i].destination@)
        } by {
            assert(held_aside(places[i], g.backed[i], i < j, disk, first));
        }
        assert(holds_moving(places, g, disk, first, 0));
    }
}

proof fn lemma_backed_up<T>(
    places: Seq<Place>,
    g: Progress,
    a: Map<Seq<char>, T>,
    b: Map<Seq<char>, T>,
    first: Map<Seq<char>, T>,
    j: int,
)
    requires
        apart(places),
        g.backed.len() == places.len() <= usize::MAX,
        0 <= j < places.len(),
        forall|path: Seq<char>| is_elsewhere(places, path) ==> #[trigger] agrees(b, first, path),
        forall|i: int|
            0 <= i < places.len() ==> held_aside(#[trigger] places[i], g.backed[i], i < j, a, first)
                && (i >= j ==> !g.backed[i]),
        first.contains_key(places[j].staged@),
        effect(places, PromoteCall::BackUp(j as usize), true, a, b),
    ensures
        holds(
            places,
            (Progress { backed: g.backed.update(j, true), ..g }).aside(j as usize),
            b,
            first,
        ),
{
    let backed = g.backed.update(j, true);
    let q = places[j];
    assert forall|i: int| 0 <= i < places.len() implies held_aside(
        #[trigger] places[i],
        backed[i],
        i < j + 1,
        b,
        first,
    ) && (i >= j + 1 ==> !backed[i]) by {
        assert(held_aside(places[i], g.backed[i], i < j, a, first));
        assert(held_aside(places[j], g.backed[j], false, a, first));
    }
    if j + 1 >= places.len() {
        let h = Progress { backed, ..g };
        assert forall|i: int| 0 <= i < places.len() implies {
            &&& held_ready(#[trigger] places[i], backed[i], b, first)
            &&& agrees(b, first, places[i].staged@) && !b.contains_key(places[i].destination@)
        } by {
            assert(held_aside(places[i], backed[i], i < j + 1, b, first));
        }
        assert(holds_moving(places, h, b, first, 0));
    }
}

proof fn lemma_moved<T>(
    places: Seq<Place>,
    g: Progress,
    a: Map<Seq<char>, T>,
    b: Map<Seq<char>, T>,
    first: Map<Seq<char>, T>,
    j: int,
)
    requires
        apart(places),
        g.backed.len() == places.len() <= usize::MAX,
        !g.failed,
        0 <= j < places.len(),
        forall|path: Seq<char>| is_elsewhere(places, path) ==> #[trigger] agrees(b, first, path),
        holds_moving(places, g, a, first, j),
        effect(places, PromoteCall::Move(j as usize), true, a, b),
    ensures
        holds(places, g.placed(j as usize), b, first),
{
    let q = places[j];
    assert(held_ready(places[j], g.backed[j], a, first));
    assert forall|i: int| 0 <= i < places.len() implies {
        &&& held_ready(#[trigger] places[i], g.backed[i], b, first)
        &&& i < j + 1 ==> is_placed(places[i], b, first)
        &&& i >= j + 1 ==> agrees(b, first, places[i].staged@) && !b.contains_key(
            places[i].destination@,
        )
    } by {
        assert(held_ready(places[i], g.backed[i], a, first));
    }
    if j + 1 < places.len() {
        assert(holds_moving(places, g, b, first, j + 1));
    }
}

proof fn lemma_copied<T>(
    places: Seq<Place>,
    g: Progress,
    yes: bool,
    a: Map<Seq<char>, T>,
    b: Map<Seq<char>, T>,
    first: Map<Seq<char>, T>,
    j: int,
)
    requires
        apart(places),
        g.backed.len() == places.len() <= usize::MAX,
        g.call == PromoteCall::CopyOver(j as usize),
        g.clean,
        0 <= j < places.len(),
        forall|path: Seq<char>| is_elsewhere(places, path) ==> #[trigger] agrees(b, first, path),
        holds_moving(places, g, a, first, j),
        effect(places, PromoteCall::CopyOver(j as usize), yes, a, b),
    ensures
        holds(places, g.after(yes), b, first),
{
    let q = places[j];
    assert(held_ready(places[j], g.backed[j], a, first));
    assert forall|i: int| 0 <= i < places.len() implies {
        &&& held_ready(#[trigger] places[i], g.backed[i], b, first)
        &&& i < j ==> is_placed(places[i], b, first)
        &&& i > j ==> agrees(b, first, places[i].staged@) && !b.contains_key(places[i].destination@)
    } by {
        assert(held_ready(places[i], g.backed[i], a, first));
        if !yes {
            assert(agrees(a, b, places[i].backup@));
            assert(agrees(a, b, places[i].staged@));
            if i != j {
                assert(agrees(a, b, places[i].destination@));
            }
        }
    }
    if !yes {
        lemma_undoing(places, g, b, first, j + 1);
    }
}

proof fn lemma_dropped<T>(
    places: Seq<Place>,
    g: Progress,
    yes: bool,
    a: Map<Seq<char>, T>,
    b: Map<Seq<char>, T>,
    first: Map<Seq<char>, T>,
    j: int,
)
    requires
        apart(places),
        g.backed.len() == places.len() <= usize::MAX,
        g.call == PromoteCall::DropStaged(j as usize),
        g.clean,
        !g.failed,
        0 <= j < places.len(),
        forall|path: Seq<char>| is_elsewhere(places, path) ==> #[trigger] agrees(b, first, path),
        holds(places, g, a, first),
        effect(places, PromoteCall::DropStaged(j as usize), yes, a, b),
    ensures
        holds(places, g.after(yes), b, first),
{
    let q = places[j];
    assert forall|i: int| 0 <= i < places.len() implies {
        &&& held_ready(#[trigger] places[i], g.backed[i], b, first)
        &&& i < j + 1 ==> is_placed(places[i], b, first)
        &&& i >= j + 1 ==> agrees(b, first, places[i].staged@) && !b.contains_key(
            places[i].destination@,
        )
    } by {
        assert(held_ready(places[i], g.backed[i], a, first));
        if !yes {
            assert(agrees(a, b, places[i].backup@));
            assert(agrees(a, b, places[i].destination@));
            if i != j {
                assert(agrees(a, b, places[i].staged@));
            }
        }
    }
    if !yes {
        lemma_undoing(places, g, b, first, j + 1);
    } else if j + 1 < places.len() {
        assert(holds_moving(places, g, b, first, j + 1));
    }
}

proof fn lemma_cleared<T>(
    places: Seq<Place>,
    g: Progress,
    a: Map<Seq<char>, T>,
    b: Map<Seq<char>, T>,
    first: Map<Seq<char>, T>,
    j: int,
)
    requires
        apart(places),
        g.backed.len() == places.len() <= usize::MAX,
        g.call == PromoteCall::Clear(j as usize),
        g.clean,
        g.failed,
        0 <= j < g.until <= places.len(),
        forall|path: Seq<char>| is_elsewhere(places, path) ==> #[trigger] agrees(b, first, path),
        holds(places, g, a, first),
        effect(places, PromoteCall::Clear(j as usize), true, a, b),
    ensures
        holds(places, g.after(true), b, first),
{
    lemma_back_call(g.backed, g.backed.len() as int);
    let q = places[j];
    assert forall|i: int| 0 <= i < places.len() implies {
        &&& held_ready(#[trigger] places[i], g.backed[i], b, first)
        &&& i < j + 1 || i >= g.until ==> !b.contains_key(places[i].destination@)
    } by {
        assert(held_ready(places[i], g.backed[i], a, first));
    }
    if j + 1 >= g.until {
        assert forall|i: int| 0 <= i < places.len() implies if g.backed[i] {
            set_aside(#[trigger] places[i], b, first) && !b.contains_key(places[i].destination@)
        } else {
            agrees(b, first, (#[trigger] places[i]).destination@)
        } by {
            assert(held_ready(places[i], g.backed[i], b, first));
        }
    }
}

proof fn lemma_put_back<T>(
    places: Seq<Place>,
    g: Progress,
    a: Map<Seq<char>, T>,
    b: Map<Seq<char>, T>,
    first: Map<Seq<char>, T>,
    j: int,
)
    requires
        apart(places),
        g.backed.len() == places.len() <= usize::MAX,
        g.call == PromoteCall::PutBack(j as usize),
        g.clean,
        g.failed,
        0 <= j < places.len(),
        g.backed[j],
        forall|path: Seq<char>| is_elsewhere(places, path) ==> #[trigger] agrees(b, first, path),
        holds(places, g, a, first),
        effect(places, PromoteCall::PutBack(j as usize), true, a, b),
    ensures
        holds(places, g.after(true), b, first),
{
    lemma_back_call(g.backed, j);
    let q = places[j];
    assert(set_aside(places[j], a, first));
    assert forall|i: int| 0 <= i < places.len() implies if g.backed[i] && i < j {
        set_aside(#[trigger] places[i], b, first) && !b.contains_key(places[i].destination@)
    } else {
        agrees(b, first, (#[trigger] places[i]).destination@)
    } by {
        if g.backed[i] && i <= j {
            assert(set_aside(places[i], a, first));
        } else {
            assert(agrees(a, first, places[i].destination@));
        }
    }
}

/// Whether the disks are what a promotion makes of the first of them, when the
/// calls are answered so.
pub open spec fn is_history<T>(
    places: Seq<Place>,
    answers: Seq<bool>,
    steps: Seq<Progress>,
    disks: Seq<Map<Seq<char>, T>>,
) -> bool {
    &&& steps.len() == answers.len() + 1
    &&& disks.len() == answers.len() + 1
    &&& steps[0] == started(places.len())
    &&& forall|k: int|
        0 <= k < answers.len() ==> #[trigger] steps[k + 1] == steps[k].after(answers[k]) && effect(
            places,
            steps[k].call,
            answers[k],
            disks[k],
            disks[k + 1],
        )
}

proof fn lemma_history<T>(
    places: Seq<Place>,
    answers: Seq<bool>,
    steps: Seq<Progress>,
    disks: Seq<Map<Seq<char>, T>>,
    k: int,
)
    requires
        apart(places),
        places.len() <= usize::MAX,
        is_history(places, answers, steps, disks),
        0 <= k < steps.len(),
    ensures
        holds(places, steps[k], disks[k], disks[0]),
        steps[k].wf(),
        steps[k].backed.len() == places.len(),
        !steps[k].failed ==> steps[k].clean,
    decreases k,
{
    if k > 0 {
        lemma_history(places, answers, steps, disks, k - 1);
        assert(steps[(k - 1) + 1] == steps[k - 1].after(answers[k - 1]));
        lemma_step(places, steps[k - 1], answers[k - 1], disks[k - 1], disks[k], disks[0]);
    }
}

/// A promotion is all or nothing. Once it is finished, either every output of
/// the stage stands in the workspace, or it has failed and, if everything that
/// was to be undone could be undone, every destination is as it was. Nothing
/// else on the disk is touched.
pub proof fn law_promotion_is_all_or_nothing<T>(
    places: Seq<Place>,
    answers: Seq<bool>,
    steps: Seq<Progress>,
    disks: Seq<Map<Seq<char>, T>>,
)
    requires
        apart(places),
        places.len() <= usize::MAX,
        is_history(places, answers, steps, disks),
        steps.last().call == PromoteCall::Finished,
    ensures
        !steps.last().failed ==> forall|i: int|
            0 <= i < places.len() ==> is_placed(#[trigger] places[i], disks.last(), disks[0]),
        steps.last().failed && steps.last().clean ==> forall|i: int|
            0 <= i < places.len() ==> agrees(
                disks.last(),
                disks[0],
                (#[trigger] places[i]).destination@,
            ),
        forall|path: Seq<char>|
            is_elsewhere(places, path) ==> #[trigger] agrees(disks.last(), disks[0], path),
{
    lemma_history(places, answers, steps, disks, steps.len() - 1);
}

/// How many calls can still come.
pub open spec fn calls_left(g: Progress) -> int {
    let n = g.backed.len() as int;
    match g.call {
        PromoteCall::LookStaged(j) => 6 * n + 2 + 3 * (n - j),
        PromoteCall::LookDestination(j) => 6 * n + 2 + 3 * (n - j) - 1,
        PromoteCall::BackUp(j) => 6 * n + 2 + 3 * (n - j) - 2,
        PromoteCall::MakeRoom(j) => 2 * n + 2 + 4 * (n - j),
        PromoteCall::Move(j) => 2 * n + 2 + 4 * (n - j) - 1,
        PromoteCall::CopyOver(j) => 2 * n + 2 + 4 * (n - j) - 2,
        PromoteCall::DropStaged(j) => 2 * n + 2 + 4 * (n - j) - 3,
        PromoteCall::Clear(i) => n + 1 + (g.until - i),
        PromoteCall::PutBack(i) => i + 1,
        PromoteCall::Finished => 0,
    }
}

/// Whatever comes back, a promotion ends.
pub proof fn law_promotion_ends(g: Progress, yes: bool)
    requires
        g.wf(),
        g.backed.len() <= usize::MAX,
        g.call != PromoteCall::Finished,
    ensures
        0 <= calls_left(g.after(yes)) < calls_left(g),
{
    lemma_back_call(g.backed, g.backed.len() as int);
    match g.call {
        PromoteCall::PutBack(i) => {
            lemma_back_call(g.backed, i as int);
        },
        _ => {},
    }
}

/// A promotion fails for a reason: an output that the command did not produce, one that could
/// not be set aside, a directory that could not be made, or an output that could neither be
/// renamed nor copied, or not be removed from the stage. It never fails otherwise, and once
/// failed it stays so. It is unclean exactly when something could not be undone.
pub proof fn law_promotion_fails_for_a_reason(g: Progress, yes: bool)
    requires
        g.wf(),
    ensures
        yes ==> g.after(yes).failed == g.failed,
        !yes && (g.call is LookDestination || g.call is Move || g.call is Clear || g.call is PutBack)
            ==> g.after(yes).failed == g.failed,
        !yes && (g.call is LookStaged || g.call is BackUp || g.call is MakeRoom || g.call is CopyOver
            || g.call is DropStaged) ==> g.after(yes).failed,
        g.after(yes).clean <==> g.clean && (yes || !(g.call is Clear) && !(g.call is PutBack)),
{
}

/// While nothing fails, every output is looked for, set aside where one stands, and brought
/// in, one after the other, in their order.
pub proof fn law_promotion_takes_the_outputs_in_turn(g: Progress, i: usize)
    requires
        g.wf(),
        !g.failed,
        i < g.backed.len() <= usize::MAX,
    ensures
        ({
            let more = i + 1 < g.backed.len();
            let then_look = if more {
                PromoteCall::LookStaged((i + 1) as usize)
            } else {
                PromoteCall::MakeRoom(0)
            };
            let then_move = if more {
                PromoteCall::MakeRoom((i + 1) as usize)
            } else {
                PromoteCall::Finished
            };
            &&& g.call == PromoteCall::LookStaged(i) ==> g.after(true).call == PromoteCall::LookDestination(i)
            &&& g.call == PromoteCall::LookDestination(i) ==> g.after(true).call == PromoteCall::BackUp(i)
            &&& g.call == PromoteCall::LookDestination(i) ==> g.after(false).call == then_look
            &&& g.call == PromoteCall::BackUp(i) ==> g.after(true).call == then_look && g.after(true).backed[i as int]
            &&& g.call == PromoteCall::MakeRoom(i) ==> g.after(true).call == PromoteCall::Move(i)
            &&& g.call == PromoteCall::Move(i) ==> g.after(true).call == then_move
            &&& g.call == PromoteCall::Move(i) ==> g.after(false).call == PromoteCall::CopyOver(i)
            &&& g.call == PromoteCall::CopyOver(i) ==> g.after(true).call == PromoteCall::DropStaged(i)
            &&& g.call == PromoteCall::DropStaged(i) ==> g.after(true).call == then_move
        }),
{
}

/// A promotion begins with the first output, and is finished at once when there is none;
/// nothing has been set aside or has failed.
pub proof fn law_promotion_begins_with_the_first_output(places: Vec<Place>, r: Promotion)
    requires
        call_ensures(Promotion::start, (places,), r),
    ensures
        r.places@ == places@,
        r.error is None,
        r.clean,
        places@.len() > 0 ==> r.call == PromoteCall::LookStaged(0),
        places@.len() == 0 ==> r.call == PromoteCall::Finished,
        forall|i: int| 0 <= i < places@.len() ==> !(#[trigger] r.backed@[i]),
{
}

/// What is told of a failure is what came back, and of an output that is missing which one it
/// is. A first error is not covered up by later ones.
pub proof fn law_promotion_tells_the_first_error(promotion: &mut Promotion, reply: PromoteReply)
    requires
        old(promotion).wf(),
        is_reply(old(promotion).call, reply),
        call_ensures(Promotion::next, (promotion, reply), ()),
    ensures
        final(promotion).places@ == old(promotion).places@,
        (old(promotion).error matches Some(e) ==> final(promotion).error matches Some(f) && f@ == e@),
        old(promotion).error is None ==> (old(promotion).call matches PromoteCall::LookStaged(i) ==> reply
            == PromoteReply::Present(false) ==> (final(promotion).error matches Some(f) && f@
            == "declared output '"@ + old(promotion).places@[i as int].output@
            + "' was not produced in staged execution"@)),
        old(promotion).error is None && (old(promotion).call is BackUp || old(promotion).call is MakeRoom
            || old(promotion).call is CopyOver || old(promotion).call is DropStaged) ==> (
        reply matches PromoteReply::Failed(cause) ==> (final(promotion).error matches Some(f) && f@
            == cause@)),
        old(promotion).error is None && (reply is Done || reply == PromoteReply::Present(true))
            ==> final(promotion).error is None,
{
    let g = old(promotion).progress().after(says_yes(reply));
    assert(final(promotion).progress() == g);
    assert(final(promotion).progress().failed == final(promotion).error is Some);
}

} // verus!
