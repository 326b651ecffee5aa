//! Copying files: the workspace to a stage, and trees from one place to
//! another.

use vstd::prelude::*;
use crate::executor::cleaned;
use crate::paths::{
    components, is_within, join_paths, joined_path, law_accepted_path_stays_inside,
    lemma_part_len_bound, named, normalized, part_len, parts, PathError,
};
use crate::promotion::{apart, Place};
use crate::text::{from_chars, same, starts_with, texts, to_chars, trim};

verus! {

/// What an entry of a directory is.
#[derive(Debug, Clone, Copy, PartialEq, Eq, Structural)]
pub enum EntryKind {
    Directory,
    File,
    Symlink,
    Other,
}

/// What is done for an entry on the way.
#[derive(Debug, Clone, PartialEq, Eq)]
pub enum CopyStep {
    /// Nothing.
    Skip,
    /// Create the directory, and those above it.
    MakeDirectory(String),
    /// Create the directory that holds the path and copy the file to the path.
    CopyFile(String),
    /// Create the directory that holds the path and a link there that leads to
    /// the same place.
    Link(String),
}

/// What is done in the stage for an entry of the workspace. `relative` is its
/// path from the workspace, empty for the workspace itself.
pub fn snapshot_step(stage: &str, relative: &str, kind: EntryKind) -> (r: CopyStep)
    ensures
        match r {
            CopyStep::Skip => relative@.len() == 0 || kind == EntryKind::Other,
            CopyStep::MakeDirectory(to) => relative@.len() > 0 && kind == EntryKind::Directory && to@
                == joined_path(stage@, relative@),
            CopyStep::CopyFile(to) => relative@.len() > 0 && kind == EntryKind::File && to@
                == joined_path(stage@, relative@),
            CopyStep::Link(to) => relative@.len() > 0 && kind == EntryKind::Symlink && to@
                == joined_path(stage@, relative@),
        },
{
    if relative.unicode_len() == 0 {
        return CopyStep::Skip;
    }
    let to = join_paths(stage, relative);
    match kind {
        EntryKind::Directory => CopyStep::MakeDirectory(to),
        EntryKind::File => CopyStep::CopyFile(to),
        EntryKind::Symlink => CopyStep::Link(to),
        EntryKind::Other => CopyStep::Skip,
    }
}

/// What is done at the destination for an entry of a directory that is copied.
/// `relative` is the entry's path from the directory, empty for the directory
/// itself.
pub fn tree_step(destination: &str, relative: &str, is_directory: bool) -> (r: CopyStep)
    ensures
        match r {
            CopyStep::Skip => relative@.len() == 0,
            CopyStep::MakeDirectory(to) => relative@.len() > 0 && is_directory && to@ == joined_path(
                destination@,
                relative@,
            ),
            CopyStep::CopyFile(to) => relative@.len() > 0 && !is_directory && to@ == joined_path(
                destination@,
                relative@,
            ),
            CopyStep::Link(_) => false,
        },
{
    if relative.unicode_len() == 0 {
        return CopyStep::Skip;
    }
    let to = join_paths(destination, relative);
    if is_directory {
        CopyStep::MakeDirectory(to)
    } else {
        CopyStep::CopyFile(to)
    }
}

/// What is said of a path that is neither a file nor a directory and so cannot
/// be copied.
pub fn uncopyable_message(path: &str) -> (r: String)
    ensures
        r@ == "cannot copy path '"@ + path@ + "' because it is neither a file nor a directory"@,
{
    let mut r = "cannot copy path '".to_owned();
    r.append(path);
    r.append("' because it is neither a file nor a directory");
    r
}

/// Whether the places are those of the outputs in the workspace, in the stage
/// and, set aside, in the directory `tx`.
pub open spec fn are_places(
    places: Seq<Place>,
    workspace: Seq<char>,
    stage: Seq<char>,
    tx: Seq<char>,
    outputs: Seq<Seq<char>>,
) -> bool {
    &&& places.len() == outputs.len()
    &&& forall|i: int|
        0 <= i < places.len() ==> {
            &&& (#[trigger] places[i]).output@ == outputs[i]
            &&& places[i].destination@ == joined_path(workspace, outputs[i])
            &&& places[i].staged@ == joined_path(stage, outputs[i])
            &&& places[i].backup@ == joined_path(tx, outputs[i])
        }
}

/// Outputs with different cleaned paths, none of which stands in the workspace
/// at or below the stage or the directory `tx`, have places that are all
/// different, when the stage and `tx` do not lie in one another.
pub proof fn law_places_of_outputs_are_apart(
    places: Seq<Place>,
    workspace: Seq<char>,
    stage: Seq<char>,
    tx: Seq<char>,
    declared: Seq<Seq<char>>,
    outputs: Seq<Seq<char>>,
)
    requires
        outputs == cleaned(declared),
        outputs.len() == declared.len(),
        outputs.no_duplicates(),
        are_places(places, workspace, stage, tx, outputs),
        !is_within(stage, tx),
        !is_within(tx, stage),
        forall|i: int|
            0 <= i < outputs.len() ==> {
                &&& !is_within(#[trigger] joined_path(workspace, outputs[i]), stage)
                &&& !is_within(joined_path(workspace, outputs[i]), tx)
            },
    ensures
        apart(places),
{
    assert forall|i: int| 0 <= i < outputs.len() implies normalized(#[trigger] declared[i])
        == Ok::<Seq<char>, PathError>(outputs[i]) by {
        lemma_cleaned_each(declared, i);
    }
    assert forall|i: int, j: int| 0 <= i < places.len() && 0 <= j < places.len() implies {
        &&& (#[trigger] places[i]).destination@ != (#[trigger] places[j]).staged@
        &&& places[i].destination@ != places[j].backup@
        &&& places[i].staged@ != places[j].backup@
    } by {
        let (d, e) = (declared[i], declared[j]);
        assert(normalized(d) is Ok && normalized(e) is Ok);
        law_accepted_path_stays_inside(e, stage);
        law_accepted_path_stays_inside(e, tx);
        law_accepted_path_stays_inside(d, stage);
        assert(!is_within(joined_path(workspace, outputs[i]), stage));
        if places[i].staged@ == places[j].backup@ {
            lemma_one_is_within(stage, tx, named(parts(d)), named(parts(e)));
        }
    }
    assert forall|i: int, j: int|
        0 <= i < places.len() && 0 <= j < places.len() && i != j implies {
        &&& (#[trigger] places[i]).destination@ != (#[trigger] places[j]).destination@
        &&& places[i].staged@ != places[j].staged@
        &&& places[i].backup@ != places[j].backup@
    } by {
        let (d, e) = (declared[i], declared[j]);
        assert(normalized(d) is Ok && normalized(e) is Ok);
        assert(outputs[i] != outputs[j]);
        lemma_different_below(workspace, d, e);
        lemma_different_below(stage, d, e);
        lemma_different_below(tx, d, e);
    }
}

/// Where none is refused, each path is cleaned by itself.
proof fn lemma_cleaned_each(declared: Seq<Seq<char>>, i: int)
    requires
        cleaned(declared).len() == declared.len(),
        0 <= i < declared.len(),
    ensures
        normalized(declared[i]) == Ok::<Seq<char>, PathError>(cleaned(declared)[i]),
    decreases declared.len(),
{
    lemma_cleaned_len(declared.drop_last());
    if i < declared.len() - 1 {
        lemma_cleaned_each(declared.drop_last(), i);
    }
}

proof fn lemma_cleaned_len(declared: Seq<Seq<char>>)
    ensures
        cleaned(declared).len() <= declared.len(),
    decreases declared.len(),
{
    if declared.len() > 0 {
        lemma_cleaned_len(declared.drop_last());
    }
}

/// Two directories of which the same path can be reached lie in one another.
proof fn lemma_one_is_within(a: Seq<char>, b: Seq<char>, x: Seq<Seq<char>>, y: Seq<Seq<char>>)
    requires
        components(a) + x == components(b) + y,
    ensures
        is_within(a, b) || is_within(b, a),
{
    let (ca, cb) = (components(a), components(b));
    let whole = ca + x;
    assert forall|i: int| 0 <= i < ca.len() && i < cb.len() implies ca[i] == cb[i] by {
        assert(whole[i] == ca[i]);
        assert((cb + y)[i] == cb[i]);
    }
    if ca.len() <= cb.len() {
        assert(cb.take(ca.len() as int) =~= ca);
    } else {
        assert(ca.take(cb.len() as int) =~= cb);
    }
}

/// From one directory, different cleaned paths lead to different places.
proof fn lemma_different_below(base: Seq<char>, a: Seq<char>, b: Seq<char>)
    requires
        normalized(a) is Ok,
        normalized(b) is Ok,
        normalized(a) != normalized(b),
    ensures
        joined_path(base, normalized(a)->Ok_0) != joined_path(base, normalized(b)->Ok_0),
{
    law_accepted_path_stays_inside(a, base);
    law_accepted_path_stays_inside(b, base);
    let (x, y) = (named(parts(a)), named(parts(b)));
    if components(base) + x == components(base) + y {
        let n = components(base).len() as int;
        assert((components(base) + x).skip(n) =~= x);
        assert((components(base) + y).skip(n) =~= y);
    }
}

/// Where each output stands in the workspace, in the stage and, set aside, in
/// the directory `tx`.
pub fn places_of(workspace: &str, stage: &str, tx: &str, outputs: &Vec<String>) -> (r: Vec<Place>)
    ensures
        are_places(r@, workspace@, stage@, tx@, texts(outputs@)),
{
    let mut r: Vec<Place> = Vec::new();
    let mut i: usize = 0;
    while i < outputs.len()
        invariant
            i <= outputs.len(),
            r.len() == i,
            forall|k: int|
                0 <= k < i ==> {
                    let output = outputs@[k]@;
                    &&& (#[trigger] r@[k]).output@ == output
                    &&& r@[k].destination@ == joined_path(workspace@, output)
                    &&& r@[k].staged@ == joined_path(stage@, output)
                    &&& r@[k].backup@ == joined_path(tx@, output)
                },
        decreases outputs.len() - i,
    {
        let output = outputs[i].as_str();
        r.push(
            Place {
                output: output.to_owned(),
                destination: join_paths(workspace, output),
                staged: join_paths(stage, output),
                backup: join_paths(tx, output),
            },
        );
        i += 1;
    }
    r
}

/// The first part of a path.
pub open spec fn first_part(path: Seq<char>) -> Seq<char> {
    path.take(part_len(path) as int)
}

/// Whether a file is copied into the stage: everything but what stands below
/// `.please` or `.git` in the workspace. `relative` is its path from the
/// workspace, or `None` when it is not below the workspace.
pub fn should_include(relative: Option<&str>) -> (r: bool)
    ensures
        r == !(relative matches Some(path) && (first_part(path@) == ".please"@ || first_part(path@)
            == ".git"@)),
{
    match relative {
        Some(path) => {
            let v = to_chars(path);
            let n: usize = v.len();
            let mut i: usize = 0;
            assert(v@.subrange(0, n as int) =~= v@);
            while i < n && v[i] != '/'
                invariant
                    n == v.len(),
                    i <= n,
                    part_len(v@) == i + part_len(v@.subrange(i as int, n as int)),
                decreases n - i,
            {
                assert(v@.subrange(i as int, n as int).drop_first() =~= v@.subrange(i + 1, n as int));
                i += 1;
            }
            assert(part_len(v@.subrange(i as int, n as int)) == 0);
            assert(v@.subrange(0, i as int) =~= first_part(v@));
            let first = from_chars(&v, 0, i);
            !(same(first.as_str(), ".please") || same(first.as_str(), ".git"))
        },
        None => true,
    }
}

/// Whether a failed clone of a file may be replaced by a plain copy: the system
/// cannot clone here, or says so with one of these codes.
pub fn is_reflink_unsupported(unsupported: bool, code: Option<i32>, codes: &Vec<i32>) -> (r: bool)
    ensures
        r == (unsupported || (code matches Some(c) && codes@.contains(c))),
{
    if unsupported {
        return true;
    }
    match code {
        Some(c) => {
            let mut i: usize = 0;
            while i < codes.len()
                invariant
                    code == Some(c),
                    !unsupported,
                    i <= codes.len(),
                    forall|j: int| 0 <= j < i ==> codes@[j] != c,
                decreases codes.len() - i,
            {
                if codes[i] == c {
                    return true;
                }
                i += 1;
            }
            false
        },
        None => false,
    }
}

/// A path starts with a part when it is that part, or a `/` follows it.
proof fn lemma_first_part(path: Seq<char>, part: Seq<char>)
    requires
        forall|i: int| 0 <= i < part.len() ==> part[i] != '/',
    ensures
        first_part(path) == part <==> path == part || starts_with(path, part.push('/')),
{
    lemma_part_len_bound(path);
    let n = part_len(path) as int;
    if first_part(path) == part {
        if n == path.len() {
            assert(path.take(n) =~= path);
        } else {
            assert(path.subrange(0, n + 1) =~= part.push('/'));
        }
    }
    if path == part {
        if n < path.len() {
            assert(path[n] == '/');
        }
        assert(path.take(n) =~= path);
    }
    if starts_with(path, part.push('/')) {
        let m = part.len() as int;
        let head = path.subrange(0, m + 1);
        assert(head[m] == '/' && head[m] == path[m]);
        if n > m {
            assert(path[m] != '/');
        }
        if n < m {
            assert(path[n] == head[n] && head[n] == part[n]);
        }
        assert(path.take(n) =~= part);
    }
}

/// The stage gets everything of the workspace but the directories `.please` and `.git` and
/// what stands in them.
pub proof fn law_stage_leaves_state_directories_out(relative: Option<&str>, included: bool)
    requires
        call_ensures(should_include, (relative,), included),
    ensures
        !included <==> (relative is Some && {
            let path = relative->0@;
            ||| path == ".please"@
            ||| starts_with(path, ".please/"@)
            ||| path == ".git"@
            ||| starts_with(path, ".git/"@)
        }),
{
    reveal_strlit(".please");
    reveal_strlit(".please/");
    reveal_strlit(".git");
    reveal_strlit(".git/");
    assert(".please/"@ =~= ".please"@.push('/'));
    assert(".git/"@ =~= ".git"@.push('/'));
    if let Some(path) = relative {
        lemma_first_part(path@, ".please"@);
        lemma_first_part(path@, ".git"@);
    }
}

/// What is copied stands at the same path below its new place as it stood below the old
/// one: a directory as a directory, a file as a file and, in a stage, a link as a link.
/// Nothing is done for the place itself.
pub proof fn law_copies_keep_their_paths(
    base: &str,
    relative: &str,
    kind: EntryKind,
    staged: CopyStep,
    copied: CopyStep,
)
    requires
        call_ensures(snapshot_step, (base, relative, kind), staged),
        call_ensures(tree_step, (base, relative, kind == EntryKind::Directory), copied),
        normalized(relative@) == Ok::<Seq<char>, PathError>(relative@),
    ensures
        match kind {
            EntryKind::Directory => staged is MakeDirectory && copied is MakeDirectory,
            EntryKind::File => staged is CopyFile && copied is CopyFile,
            EntryKind::Symlink => staged is Link && copied is CopyFile,
            EntryKind::Other => staged is Skip && copied is CopyFile,
        },
        match staged {
            CopyStep::MakeDirectory(to) => components(to@) == components(base@) + components(relative@),
            CopyStep::CopyFile(to) => components(to@) == components(base@) + components(relative@),
            CopyStep::Link(to) => components(to@) == components(base@) + components(relative@),
            CopyStep::Skip => true,
        },
        match copied {
            CopyStep::MakeDirectory(to) => components(to@) == components(base@) + components(relative@),
            CopyStep::CopyFile(to) => components(to@) == components(base@) + components(relative@),
            _ => false,
        },
{
    law_accepted_path_stays_inside(relative@, base@);
    if relative@.len() == 0 {
        assert(trim(relative@) =~= relative@);
    }
}

/// An output stands below the workspace, comes from below the stage and is set aside below
/// `tx`, each time at its own path.
pub proof fn law_places_stand_below_their_directories(
    places: Seq<Place>,
    workspace: Seq<char>,
    stage: Seq<char>,
    tx: Seq<char>,
    outputs: Seq<Seq<char>>,
    i: int,
)
    requires
        are_places(places, workspace, stage, tx, outputs),
        0 <= i < outputs.len(),
        normalized(outputs[i]) == Ok::<Seq<char>, PathError>(outputs[i]),
    ensures
        places.len() == outputs.len(),
        places[i].output@ == outputs[i],
        components(places[i].destination@) == components(workspace) + components(outputs[i]),
        components(places[i].staged@) == components(stage) + components(outputs[i]),
        components(places[i].backup@) == components(tx) + components(outputs[i]),
{
    let place = places[i];
    law_accepted_path_stays_inside(outputs[i], workspace);
    law_accepted_path_stays_inside(outputs[i], stage);
    law_accepted_path_stays_inside(outputs[i], tx);
}

/// Each output has its three places, in the order of the outputs. What cannot be copied is
/// named, and a clone that fails is replaced by a copy exactly where the system cannot clone.
pub proof fn law_outputs_have_their_places(
    workspace: &str,
    stage: &str,
    tx: &str,
    outputs: Vec<String>,
    r: Vec<Place>,
    i: int,
    path: &str,
    text: String,
)
    requires
        call_ensures(places_of, (workspace, stage, tx, &outputs), r),
        call_ensures(uncopyable_message, (path,), text),
        0 <= i < outputs@.len(),
    ensures
        r@.len() == outputs@.len(),
        r@[i].output@ == outputs@[i]@,
        r@[i].destination@ == joined_path(workspace@, outputs@[i]@),
        r@[i].staged@ == joined_path(stage@, outputs@[i]@),
        r@[i].backup@ == joined_path(tx@, outputs@[i]@),
        text@ == "cannot copy path '"@ + path@ + "' because it is neither a file nor a directory"@,
{
    assert(texts(outputs@)[i] == outputs@[i]@);
}

/// A clone that failed is replaced by a plain copy exactly where the system says that it cannot
/// clone, in words or by one of the codes for that.
pub proof fn law_failed_clone_becomes_a_copy(unsupported: bool, code: Option<i32>, codes: Vec<i32>, r: bool)
    requires
        call_ensures(is_reflink_unsupported, (unsupported, code, &codes), r),
    ensures
        unsupported ==> r,
        !unsupported && code is None ==> !r,
        !unsupported ==> (code matches Some(c) ==> (r <==> exists|i: int|
            0 <= i < codes@.len() && #[trigger] codes@[i] == c)),
{
    if let Some(c) = code {
        if codes@.contains(c) {
            let i = choose|i: int| 0 <= i < codes@.len() && codes@[i] == c;
            assert(codes@[i] == c);
        }
        if exists|i: int| 0 <= i < codes@.len() && #[trigger] codes@[i] == c {
            let i = choose|i: int| 0 <= i < codes@.len() && #[trigger] codes@[i] == c;
            assert(codes@.contains(codes@[i]));
        }
    }
}

} // verus!
