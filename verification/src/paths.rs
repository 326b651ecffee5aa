//! Paths as text, with `/` between their parts.
//!
//! The rules are those of Unix: a path that starts with `/` is absolute, empty
//! parts and `.` parts name nothing, and joining an absolute path to another
//! one replaces it.

use vstd::prelude::*;
use crate::text::{
    from_chars, is_cut_to, is_white, join, joined, law_trim_cuts_white_space, same, texts, to_chars,
    trim, trim_bounds,
};

verus! {

/// Why a path of a cached artifact is refused.
#[derive(Debug, Clone, Copy, PartialEq, Eq, Structural)]
pub enum PathError {
    /// It holds nothing but white space.
    Empty,
    /// It is absolute.
    Absolute,
    /// One of its parts is `..`.
    ParentSegment,
    /// It has no parts left and names the current directory.
    CurrentDirectory,
}

impl PathError {
    /// What is said of the refused path.
    pub open spec fn text(self, raw: Seq<char>) -> Seq<char> {
        match self {
            PathError::Empty => "cached artifact path cannot be empty"@,
            PathError::Absolute => "cached artifact path '"@ + raw + "' must be relative"@,
            PathError::ParentSegment => "cached artifact path '"@ + raw
                + "' cannot contain '..' segments"@,
            PathError::CurrentDirectory => "cached artifact path '"@ + raw
                + "' cannot resolve to current directory"@,
        }
    }

    /// What is said of the refused path.
    pub fn message(&self, raw: &str) -> (r: String)
        ensures
            r@ == self.text(raw@),
    {
        let tail = match self {
            PathError::Empty => {
                return "cached artifact path cannot be empty".to_owned();
            },
            PathError::Absolute => "' must be relative",
            PathError::ParentSegment => "' cannot contain '..' segments",
            PathError::CurrentDirectory => "' cannot resolve to current directory",
        };
        let mut r = "cached artifact path '".to_owned();
        r.append(raw);
        r.append(tail);
        r
    }
}

/// Whether the path starts at the root.
pub open spec fn is_absolute(p: Seq<char>) -> bool {
    p.len() > 0 && p[0] == '/'
}

/// How many characters stand before the first `/`.
pub open spec fn part_len(p: Seq<char>) -> nat
    decreases p.len(),
{
    if p.len() == 0 || p[0] == '/' {
        0
    } else {
        1 + part_len(p.drop_first())
    }
}

/// A part is no longer than the path it starts.
pub proof fn lemma_part_len_bound(p: Seq<char>)
    ensures
        part_len(p) <= p.len(),
        part_len(p) < p.len() ==> p[part_len(p) as int] == '/',
        forall|i: int| 0 <= i < part_len(p) ==> p[i] != '/',
    decreases p.len(),
{
    if p.len() != 0 && p[0] != '/' {
        let q = p.drop_first();
        lemma_part_len_bound(q);
        assert forall|i: int| 0 <= i < part_len(p) implies p[i] != '/' by {
            if i > 0 {
                assert(q[i - 1] == p[i]);
            }
        }
    }
}

/// The parts of the path: what stands between its `/` characters, empty parts
/// included.
pub open spec fn parts(p: Seq<char>) -> Seq<Seq<char>>
    decreases p.len(),
{
    let n = part_len(p) as int;
    if n >= p.len() {
        seq![p]
    } else {
        seq![p.take(n)] + parts(p.skip(n + 1))
    }
}

/// The parts that name something: all but the empty ones and `.`.
pub open spec fn named(ps: Seq<Seq<char>>) -> Seq<Seq<char>>
    decreases ps.len(),
{
    if ps.len() == 0 {
        Seq::empty()
    } else {
        let front = named(ps.drop_last());
        if ps.last() == ""@ || ps.last() == "."@ {
            front
        } else {
            front.push(ps.last())
        }
    }
}

/// The components of a path: `/` where it is absolute, `.` where it starts with
/// that part, then the parts that name something.
pub open spec fn components(p: Seq<char>) -> Seq<Seq<char>> {
    let head: Seq<Seq<char>> = if is_absolute(p) {
        seq!["/"@]
    } else if parts(p)[0] == "."@ {
        seq!["."@]
    } else {
        Seq::empty()
    };
    head + named(parts(p))
}

/// Whether the components of `base` are the first components of `p`.
pub open spec fn is_within(p: Seq<char>, base: Seq<char>) -> bool {
    components(base).is_prefix_of(components(p))
}

/// The path `b` as seen from the directory `a`.
pub open spec fn joined_path(a: Seq<char>, b: Seq<char>) -> Seq<char> {
    if is_absolute(b) {
        b
    } else if a.len() == 0 || a.last() == '/' {
        a + b
    } else {
        a + "/"@ + b
    }
}

/// The path `b` as seen from the directory `a`.
pub fn join_paths(a: &str, b: &str) -> (r: String)
    ensures
        r@ == joined_path(a@, b@),
{
    if b.unicode_len() > 0 && b.get_char(0) == '/' {
        return b.to_owned();
    }
    let mut r = a.to_owned();
    let n: usize = a.unicode_len();
    if n > 0 && a.get_char(n - 1) != '/' {
        r.append("/");
    }
    r.append(b);
    r
}

/// The path with its empty and `.` parts dropped, or why it is refused.
pub open spec fn normalized(raw: Seq<char>) -> Result<Seq<char>, PathError> {
    let ps = named(parts(raw));
    if trim(raw).len() == 0 {
        Err(PathError::Empty)
    } else if is_absolute(raw) {
        Err(PathError::Absolute)
    } else if ps.contains(".."@) {
        Err(PathError::ParentSegment)
    } else if ps.len() == 0 {
        Err(PathError::CurrentDirectory)
    } else {
        Ok(join(ps, "/"@))
    }
}

/// The parts of `v`.
fn parts_of(v: &Vec<char>) -> (r: Vec<String>)
    ensures
        texts(r@) == parts(v@),
{
    let mut r: Vec<String> = Vec::new();
    let n: usize = v.len();
    let mut start: usize = 0;
    let mut i: usize = 0;
    let ghost all = parts(v@);
    assert(v@.subrange(0, n as int) =~= v@);
    assert(texts(r@) + all =~= all);
    while i < n
        invariant
            start <= i <= n,
            n == v.len(),
            texts(r@) + parts(v@.subrange(start as int, n as int)) == all,
            part_len(v@.subrange(start as int, n as int)) == (i - start) + part_len(
                v@.subrange(i as int, n as int),
            ),
        decreases n - i,
    {
        let ghost rest = v@.subrange(start as int, n as int);
        let ghost here = v@.subrange(i as int, n as int);
        assert(here[0] == v[i as int]);
        if v[i] == '/' {
            let w = from_chars(v, start, i);
            let ghost before = r@;
            r.push(w);
            assert(part_len(rest) == i - start);
            assert(rest.take(i - start) =~= w@);
            assert(rest.skip(i - start + 1) =~= v@.subrange(i + 1, n as int));
            assert(texts(r@) =~= texts(before).push(w@));
            assert(texts(r@) + parts(v@.subrange(i + 1, n as int)) =~= texts(before) + parts(rest));
            start = i + 1;
        } else {
            assert(here.drop_first() =~= v@.subrange(i + 1, n as int));
        }
        i += 1;
    }
    let ghost rest = v@.subrange(start as int, n as int);
    let w = from_chars(v, start, n);
    let ghost before = r@;
    r.push(w);
    assert(texts(r@) =~= texts(before).push(w@));
    assert(parts(rest) =~= seq![rest]);
    assert(texts(r@) =~= texts(before) + seq![rest]);
    r
}

/// Checks that a stored path is relative and stays below the directory it is
/// restored into, and drops its empty and `.` parts.
pub fn normalize_artifact_relative_path(raw: &str) -> (r: Result<String, PathError>)
    ensures
        match r {
            Ok(p) => normalized(raw@) == Ok::<Seq<char>, PathError>(p@),
            Err(e) => normalized(raw@) == Err::<Seq<char>, PathError>(e),
        },
{
    let v = to_chars(raw);
    let n: usize = v.len();
    let (lo, hi) = trim_bounds(&v, 0, n);
    assert(v@.subrange(0, n as int) =~= v@);
    if lo == hi {
        return Err(PathError::Empty);
    }
    if v[0] == '/' {
        return Err(PathError::Absolute);
    }
    let all = parts_of(&v);
    let mut kept: Vec<String> = Vec::new();
    let mut i: usize = 0;
    let ghost ps = texts(all@);
    assert(texts(kept@) =~= named(ps.take(0)));
    while i < all.len()
        invariant
            i <= all.len(),
            ps == texts(all@),
            ps == parts(raw@),
            trim(raw@).len() > 0,
            !is_absolute(raw@),
            texts(kept@) == named(ps.take(i as int)),
            !texts(kept@).contains(".."@),
        decreases all.len() - i,
    {
        let part = all[i].as_str();
        assert(ps.take(i + 1).drop_last() =~= ps.take(i as int));
        if !same(part, "") && !same(part, ".") {
            let ghost before = texts(kept@);
            assert(named(ps.take(i + 1)) == before.push(part@));
            if same(part, "..") {
                proof {
                    lemma_named_prefix(ps, i + 1);
                    let j = before.len() as int;
                    assert(named(ps.take(i + 1))[j] == ".."@);
                    assert(named(ps)[j] == ".."@);
                }
                return Err(PathError::ParentSegment);
            }
            let ghost old_kept = kept@;
            kept.push(part.to_owned());
            assert(texts(kept@) =~= before.push(part@));
            assert forall|j: int| 0 <= j < texts(kept@).len() implies texts(kept@)[j] != ".."@ by {
                if j < before.len() {
                    assert(before[j] == texts(kept@)[j]);
                    assert(before.contains(before[j]));
                }
            }
        }
        i += 1;
    }
    assert(ps.take(ps.len() as int) =~= ps);
    if kept.len() == 0 {
        return Err(PathError::CurrentDirectory);
    }
    Ok(joined(&kept, "/"))
}

/// What a prefix names stands first among what the whole names.
proof fn lemma_named_prefix(ps: Seq<Seq<char>>, n: int)
    requires
        0 <= n <= ps.len(),
    ensures
        named(ps.take(n)).is_prefix_of(named(ps)),
    decreases ps.len(),
{
    if n == ps.len() {
        assert(ps.take(n) =~= ps);
    } else {
        lemma_named_prefix(ps.drop_last(), n);
        assert(ps.drop_last().take(n) =~= ps.take(n));
    }
}

/// The parts of two paths with a `/` between them.
proof fn lemma_parts_join(a: Seq<char>, b: Seq<char>)
    ensures
        parts(a + "/"@ + b) == parts(a) + parts(b),
    decreases a.len(),
{
    reveal_strlit("/");
    let whole = a + "/"@ + b;
    let n = part_len(a) as int;
    lemma_part_len_bound(a);
    lemma_part_len_prefix(a, "/"@ + b);
    assert(a + ("/"@ + b) =~= whole);
    if n >= a.len() {
        assert(whole.take(n) =~= a);
        assert(whole.skip(n + 1) =~= b);
        assert(parts(whole) =~= seq![a] + parts(b));
    } else {
        let rest = a.skip(n + 1);
        lemma_parts_join(rest, b);
        assert(whole.take(n) =~= a.take(n));
        assert(whole.skip(n + 1) =~= rest + "/"@ + b);
        assert(parts(whole) =~= seq![a.take(n)] + (parts(rest) + parts(b)));
        assert(parts(a) + parts(b) =~= seq![a.take(n)] + (parts(rest) + parts(b)));
    }
}

/// The first part of a path ends at the latest where a `/` is put behind it.
proof fn lemma_part_len_prefix(a: Seq<char>, tail: Seq<char>)
    requires
        tail.len() > 0,
        tail[0] == '/',
    ensures
        part_len(a + tail) == part_len(a),
    decreases a.len(),
{
    if a.len() == 0 {
        assert(a + tail =~= tail);
    } else if a[0] != '/' {
        assert((a + tail).drop_first() =~= a.drop_first() + tail);
        lemma_part_len_prefix(a.drop_first(), tail);
    }
}

/// What two lists of parts name together.
proof fn lemma_named_concat(x: Seq<Seq<char>>, y: Seq<Seq<char>>)
    ensures
        named(x + y) == named(x) + named(y),
    decreases y.len(),
{
    if y.len() == 0 {
        assert(x + y =~= x);
        assert(named(x) + named(y) =~= named(x));
    } else {
        lemma_named_concat(x, y.drop_last());
        assert((x + y).drop_last() =~= x + y.drop_last());
        assert((x + y).last() == y.last());
        assert(named(x + y) =~= named(x) + named(y));
    }
}

/// No part holds a `/`.
pub open spec fn slash_free(ps: Seq<Seq<char>>) -> bool {
    forall|i: int, j: int| 0 <= i < ps.len() && 0 <= j < ps[i].len() ==> #[trigger] ps[i][j] != '/'
}

/// Every part stands for itself: none is empty or `.`.
pub open spec fn all_named(ps: Seq<Seq<char>>) -> bool {
    forall|i: int| 0 <= i < ps.len() ==> #[trigger] ps[i] != ""@ && ps[i] != "."@
}

proof fn lemma_parts_slash_free(p: Seq<char>)
    ensures
        slash_free(parts(p)),
        parts(p).len() > 0,
    decreases p.len(),
{
    let n = part_len(p) as int;
    lemma_part_len_bound(p);
    if n < p.len() {
        let rest = parts(p.skip(n + 1));
        lemma_parts_slash_free(p.skip(n + 1));
        assert forall|i: int, j: int| 0 <= i < parts(p).len() && 0 <= j < parts(p)[i].len() implies
            #[trigger] parts(p)[i][j] != '/' by {
            if i > 0 {
                assert(parts(p)[i] == rest[i - 1]);
            }
        }
    }
}

proof fn lemma_named_is_clean(ps: Seq<Seq<char>>)
    requires
        slash_free(ps),
    ensures
        slash_free(named(ps)),
        all_named(named(ps)),
    decreases ps.len(),
{
    if ps.len() > 0 {
        let front = ps.drop_last();
        assert forall|i: int, j: int| 0 <= i < front.len() && 0 <= j < front[i].len() implies
            #[trigger] front[i][j] != '/' by {
            assert(ps[i][j] != '/');
        }
        lemma_named_is_clean(front);
        assert forall|i: int, j: int| 0 <= i < named(ps).len() && 0 <= j < named(ps)[i].len() implies
            #[trigger] named(ps)[i][j] != '/' by {
            if i < named(front).len() {
                assert(named(ps)[i] == named(front)[i]);
            } else {
                assert(ps[ps.len() - 1][j] != '/');
            }
        }
    }
}

/// Joining clean parts and taking the path apart again gives the parts back.
proof fn lemma_parts_of_join(ps: Seq<Seq<char>>)
    requires
        ps.len() > 0,
        slash_free(ps),
        all_named(ps),
    ensures
        parts(join(ps, "/"@)) == ps,
        named(ps) == ps,
        join(ps, "/"@).len() > 0,
        join(ps, "/"@)[0] == ps[0][0],
        ps[0].len() > 0,
    decreases ps.len(),
{
    reveal_strlit("");
    assert(ps[0].len() > 0) by {
        if ps[0].len() == 0 {
            assert(ps[0] =~= ""@);
        }
    }
    let last = ps.last();
    assert(part_len(last) >= last.len() && parts(last) =~= seq![last]) by {
        lemma_part_len_bound(last);
        if part_len(last) < last.len() {
            assert(ps[ps.len() - 1][part_len(last) as int] == '/');
        }
    }
    if ps.len() == 1 {
        assert(ps =~= seq![last]);
        assert(named(ps.drop_last()) =~= Seq::<Seq<char>>::empty());
        assert(named(ps) =~= ps);
    } else {
        let front = ps.drop_last();
        assert forall|i: int, j: int| 0 <= i < front.len() && 0 <= j < front[i].len() implies
            #[trigger] front[i][j] != '/' by {
            assert(ps[i][j] != '/');
        }
        assert(all_named(front)) by {
            assert forall|i: int| 0 <= i < front.len() implies #[trigger] front[i] != ""@ && front[i]
                != "."@ by {
                assert(ps[i] == front[i]);
            }
        }
        lemma_parts_of_join(front);
        lemma_parts_join(join(front, "/"@), last);
        assert(front + seq![last] =~= ps);
        assert(front.push(last) =~= ps);
    }
}

/// A stored path that is accepted is relative, holds no `..`, names what the
/// stored text names, and leads from any directory to a place below it.
pub proof fn law_accepted_path_stays_inside(raw: Seq<char>, base: Seq<char>)
    requires
        normalized(raw) is Ok,
    ensures
        !is_absolute(normalized(raw)->Ok_0),
        !components(normalized(raw)->Ok_0).contains(".."@),
        components(normalized(raw)->Ok_0) == named(parts(raw)),
        is_within(joined_path(base, normalized(raw)->Ok_0), base),
        components(joined_path(base, normalized(raw)->Ok_0)) == components(base) + named(parts(raw)),
{
    reveal_strlit("/");
    reveal_strlit(".");
    reveal_strlit("");
    let ps = named(parts(raw));
    let p = normalized(raw)->Ok_0;
    lemma_parts_slash_free(raw);
    lemma_named_is_clean(parts(raw));
    lemma_parts_of_join(ps);
    assert(!is_absolute(p)) by {
        assert(ps[0][0] != '/');
    }
    assert(components(p) =~= ps);
    let whole = joined_path(base, p);
    lemma_parts_slash_free(base);
    if base.len() == 0 {
        assert(whole =~= p);
        assert(part_len(base) == 0);
        assert(parts(base) =~= seq![base]);
        assert(base =~= ""@);
        assert(named(parts(base).drop_last()) =~= Seq::<Seq<char>>::empty());
        assert(named(parts(base)) =~= Seq::<Seq<char>>::empty());
        assert(components(base) =~= Seq::<Seq<char>>::empty());
        assert(components(whole) =~= components(base) + ps);
    } else if base.last() == '/' {
        let stem = base.drop_last();
        assert(base =~= stem + "/"@ + Seq::<char>::empty());
        assert(whole =~= stem + "/"@ + p);
        lemma_parts_join(stem, Seq::empty());
        lemma_parts_join(stem, p);
        lemma_parts_slash_free(stem);
        let none = parts(Seq::<char>::empty());
        assert(part_len(Seq::<char>::empty()) == 0);
        assert(none =~= seq![Seq::<char>::empty()]);
        assert(none.last() =~= ""@);
        assert(named(none.drop_last()) =~= Seq::<Seq<char>>::empty());
        assert(named(none) =~= Seq::<Seq<char>>::empty());
        lemma_named_concat(parts(stem), none);
        lemma_named_concat(parts(stem), ps);
        assert(named(parts(base)) =~= named(parts(stem)));
        assert(parts(whole)[0] == parts(base)[0]);
        assert(is_absolute(whole) == is_absolute(base));
        assert(components(whole) =~= components(base) + ps);
    } else {
        lemma_parts_join(base, p);
        lemma_named_concat(parts(base), ps);
        assert(parts(whole)[0] == parts(base)[0]);
        assert(is_absolute(whole) == is_absolute(base));
        assert(components(whole) =~= components(base) + ps);
    }
}

/// Parts without a `/` that are joined by it are the parts of what comes out.
proof fn lemma_join_has_its_parts(ps: Seq<Seq<char>>)
    requires
        ps.len() > 0,
        slash_free(ps),
    ensures
        parts(join(ps, "/"@)) == ps,
    decreases ps.len(),
{
    let last = ps.last();
    assert(parts(last) =~= seq![last]) by {
        lemma_part_len_bound(last);
        if part_len(last) < last.len() {
            assert(ps[ps.len() - 1][part_len(last) as int] == '/');
        }
    }
    if ps.len() == 1 {
        assert(ps =~= seq![last]);
    } else {
        let front = ps.drop_last();
        assert forall|i: int, j: int| 0 <= i < front.len() && 0 <= j < front[i].len() implies
            #[trigger] front[i][j] != '/' by {
            assert(ps[i][j] != '/');
        }
        lemma_join_has_its_parts(front);
        lemma_parts_join(join(front, "/"@), last);
        assert(front + seq![last] =~= ps);
    }
}

/// The parts that name something are those that are neither empty nor `.`, in their order.
proof fn lemma_named_is_a_filter(ps: Seq<Seq<char>>)
    ensures
        named(ps) == ps.filter(|part: Seq<char>| part != ""@ && part != "."@),
        forall|part: Seq<char>|
            part != ""@ && part != "."@ ==> (#[trigger] named(ps).contains(part) <==> ps.contains(
                part,
            )),
    decreases ps.len(),
{
    reveal(Seq::filter);
    if ps.len() > 0 {
        let front = ps.drop_last();
        lemma_named_is_a_filter(front);
        assert forall|part: Seq<char>| part != ""@ && part != "."@ implies (#[trigger] named(
            ps,
        ).contains(part) <==> ps.contains(part)) by {
            assert(named(front).contains(part) <==> front.contains(part));
            if ps.contains(part) && part != ps.last() {
                let i = choose|i: int| 0 <= i < ps.len() && ps[i] == part;
                assert(front[i] == part);
                let k = choose|k: int| 0 <= k < named(front).len() && named(front)[k] == part;
                assert(named(ps)[k] == part);
            }
            if part == ps.last() {
                assert(ps[ps.len() - 1] == part);
                assert(named(ps)[named(ps).len() - 1] == part);
            }
            if named(ps).contains(part) && part != ps.last() {
                let k = choose|k: int| 0 <= k < named(ps).len() && named(ps)[k] == part;
                assert(named(front)[k] == part);
                let i = choose|i: int| 0 <= i < front.len() && front[i] == part;
                assert(ps[i] == part);
            }
        }
    } else {
        assert(named(ps) =~= ps.filter(|part: Seq<char>| part != ""@ && part != "."@));
    }
}

/// Which paths are accepted, and as what. `ps` is what stands between the `/` characters of
/// the path. A blank path, one that starts with `/`, one with a part `..` and one that names
/// nothing are refused, in this order. Any other is accepted without its empty parts and its
/// `.` parts.
pub proof fn law_paths_are_judged_by_their_parts(raw: Seq<char>, ps: Seq<Seq<char>>)
    requires
        ps.len() > 0,
        slash_free(ps),
        raw == join(ps, "/"@),
    ensures
        ({
            let names = ps.filter(|part: Seq<char>| part != ""@ && part != "."@);
            if forall|i: int| 0 <= i < raw.len() ==> is_white(#[trigger] raw[i]) {
                normalized(raw) == Err::<Seq<char>, PathError>(PathError::Empty)
            } else if raw[0] == '/' {
                normalized(raw) == Err::<Seq<char>, PathError>(PathError::Absolute)
            } else if ps.contains(".."@) {
                normalized(raw) == Err::<Seq<char>, PathError>(PathError::ParentSegment)
            } else if names.len() == 0 {
                normalized(raw) == Err::<Seq<char>, PathError>(PathError::CurrentDirectory)
            } else {
                normalized(raw) == Ok::<Seq<char>, PathError>(join(names, "/"@))
            }
        }),
{
    reveal_strlit("");
    reveal_strlit(".");
    reveal_strlit("..");
    lemma_join_has_its_parts(ps);
    lemma_named_is_a_filter(ps);
    assert(".."@.len() == 2 && "."@.len() == 1);
    assert(named(ps).contains(".."@) <==> ps.contains(".."@));
    law_trim_cuts_white_space(raw);
    let (a, b) = choose|a: int, b: int| #[trigger] is_cut_to(raw, a, b) && trim(raw) == raw.subrange(
        a,
        b,
    );
    if forall|i: int| 0 <= i < raw.len() ==> is_white(#[trigger] raw[i]) {
        if trim(raw).len() > 0 {
            assert(trim(raw)[0] == raw[a]);
        }
    } else {
        let i = choose|i: int| 0 <= i < raw.len() && !is_white(#[trigger] raw[i]);
        assert(a <= i < b);
    }
}

/// What a path was accepted as is accepted as it is, unless it is blank.
pub proof fn law_cleaned_path_is_clean(raw: Seq<char>)
    requires
        normalized(raw) is Ok,
        trim(normalized(raw)->Ok_0).len() > 0,
    ensures
        normalized(normalized(raw)->Ok_0) == normalized(raw),
{
    reveal_strlit("");
    reveal_strlit(".");
    reveal_strlit("/");
    let ps = named(parts(raw));
    let p = normalized(raw)->Ok_0;
    lemma_parts_slash_free(raw);
    lemma_named_is_clean(parts(raw));
    lemma_parts_of_join(ps);
    assert(ps[0][0] != '/');
    lemma_named_is_a_filter(ps);
}

/// Joining leads on from a directory to a relative path, and straight to an absolute one.
pub proof fn law_absolute_path_replaces(base: Seq<char>, path: Seq<char>)
    ensures
        path.len() > 0 && path[0] == '/' ==> joined_path(base, path) == path,
        path.len() > 0 && path[0] != '/' && base.len() > 0 && base.last() != '/' ==> joined_path(
            base,
            path,
        ) == base + "/"@ + path,
{
}

/// A path is cleaned or refused as its parts say, and joined to a directory as Unix joins
/// paths. What is said of a refused path names it and why it is refused.
pub proof fn law_paths_handed_out(
    raw: &str,
    base: &str,
    r: Result<String, PathError>,
    whole: String,
    a: String,
    b: String,
    c: String,
    d: String,
)
    requires
        call_ensures(normalize_artifact_relative_path, (raw,), r),
        call_ensures(join_paths, (base, raw), whole),
        call_ensures(PathError::message, (&PathError::Empty, raw), a),
        call_ensures(PathError::message, (&PathError::Absolute, raw), b),
        call_ensures(PathError::message, (&PathError::ParentSegment, raw), c),
        call_ensures(PathError::message, (&PathError::CurrentDirectory, raw), d),
    ensures
        r is Ok <==> normalized(raw@) is Ok,
        r matches Ok(path) ==> normalized(raw@) == Ok::<Seq<char>, PathError>(path@),
        r matches Err(e) ==> normalized(raw@) == Err::<Seq<char>, PathError>(e),
        raw@.len() > 0 && raw@[0] == '/' ==> whole@ == raw@,
        raw@.len() > 0 && raw@[0] != '/' && base@.len() > 0 && base@.last() != '/' ==> whole@ == base@ + "/"@
            + raw@,
        raw@.len() > 0 && raw@[0] != '/' && base@.len() > 0 && base@.last() == '/' ==> whole@ == base@ + raw@,
        a@ == "cached artifact path cannot be empty"@,
        b@ == "cached artifact path '"@ + raw@ + "' must be relative"@,
        c@ == "cached artifact path '"@ + raw@ + "' cannot contain '..' segments"@,
        d@ == "cached artifact path '"@ + raw@ + "' cannot resolve to current directory"@,
{
}

} // verus!
