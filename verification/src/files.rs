//! What is to be done on disk.

use vstd::prelude::*;

verus! {

/// One change on disk.
#[derive(Debug, Clone, PartialEq, Eq)]
pub enum FsAction {
    /// Removes the file or directory at the path, if there is one.
    RemoveIfPresent(String),
    /// Removes the directory at the path with all it holds.
    RemoveDirectory(String),
    /// Creates the directory that holds the path, and those above it.
    CreateParent(String),
    /// Copies the file or directory.
    Copy { from: String, to: String },
    /// Copies the file or directory, unless something stands at the
    /// destination.
    CopyIfAbsent { from: String, to: String },
}

/// The content of an [`FsAction`].
pub ghost enum Change {
    RemoveIfPresent(Seq<char>),
    RemoveDirectory(Seq<char>),
    CreateParent(Seq<char>),
    Copy { from: Seq<char>, to: Seq<char> },
    CopyIfAbsent { from: Seq<char>, to: Seq<char> },
}

impl View for FsAction {
    type V = Change;

    open spec fn view(&self) -> Change {
        match self {
            FsAction::RemoveIfPresent(p) => Change::RemoveIfPresent(p@),
            FsAction::RemoveDirectory(p) => Change::RemoveDirectory(p@),
            FsAction::CreateParent(p) => Change::CreateParent(p@),
            FsAction::Copy { from, to } => Change::Copy { from: from@, to: to@ },
            FsAction::CopyIfAbsent { from, to } => Change::CopyIfAbsent { from: from@, to: to@ },
        }
    }
}

/// The contents of a list of actions.
pub open spec fn changes(v: Seq<FsAction>) -> Seq<Change> {
    Seq::new(v.len(), |i: int| v[i]@)
}

/// The disk after a change, when each path is taken for the whole of what
/// stands there.
pub open spec fn applied<T>(disk: Map<Seq<char>, T>, change: Change) -> Map<Seq<char>, T> {
    match change {
        Change::RemoveIfPresent(path) => disk.remove(path),
        Change::RemoveDirectory(path) => disk.remove(path),
        Change::CreateParent(_) => disk,
        Change::Copy { from, to } => if disk.contains_key(from) {
            disk.insert(to, disk[from])
        } else {
            disk
        },
        Change::CopyIfAbsent { from, to } => if disk.contains_key(from) && !disk.contains_key(to) {
            disk.insert(to, disk[from])
        } else {
            disk
        },
    }
}

/// The disk after the changes, one after the other.
pub open spec fn all_applied<T>(disk: Map<Seq<char>, T>, changes: Seq<Change>) -> Map<Seq<char>, T>
    decreases changes.len(),
{
    if changes.len() == 0 {
        disk
    } else {
        all_applied(applied(disk, changes[0]), changes.drop_first())
    }
}

/// Changes that come in two parts are applied part by part.
pub proof fn lemma_all_applied_add<T>(disk: Map<Seq<char>, T>, a: Seq<Change>, b: Seq<Change>)
    ensures
        all_applied(disk, a + b) == all_applied(all_applied(disk, a), b),
    decreases a.len(),
{
    if a.len() == 0 {
        assert(a + b =~= b);
    } else {
        assert((a + b).drop_first() =~= a.drop_first() + b);
        assert((a + b)[0] == a[0]);
        lemma_all_applied_add(applied(disk, a[0]), a.drop_first(), b);
    }
}

/// Whether the path holds the same on both disks.
pub open spec fn agrees<T>(a: Map<Seq<char>, T>, b: Map<Seq<char>, T>, path: Seq<char>) -> bool {
    &&& a.contains_key(path) == b.contains_key(path)
    &&& a.contains_key(path) ==> a[path] == b[path]
}

} // verus!
