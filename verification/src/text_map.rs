//! An ordered map keyed by text.
//!
//! The entries are kept in ascending order of their keys, so that walking the
//! map visits the keys in the order in which their characters compare.

use vstd::prelude::*;
use crate::text::{same, to_chars};

verus! {

/// Whether `a` comes before `b` when the two are compared character by
/// character.
pub open spec fn before(a: Seq<char>, b: Seq<char>) -> bool
    decreases a.len(),
{
    if b.len() == 0 {
        false
    } else if a.len() == 0 {
        true
    } else if a[0] != b[0] {
        a[0] < b[0]
    } else {
        before(a.drop_first(), b.drop_first())
    }
}

/// No text comes before itself.
pub proof fn lemma_before_irreflexive(a: Seq<char>)
    ensures
        !before(a, a),
    decreases a.len(),
{
    if a.len() > 0 {
        lemma_before_irreflexive(a.drop_first());
    }
}

/// What comes before a text that comes before a third comes before the third.
pub proof fn lemma_before_transitive(a: Seq<char>, b: Seq<char>, c: Seq<char>)
    requires
        before(a, b),
        before(b, c),
    ensures
        before(a, c),
    decreases a.len(),
{
    if a.len() > 0 && a[0] == b[0] && b[0] == c[0] {
        lemma_before_transitive(a.drop_first(), b.drop_first(), c.drop_first());
    }
}

/// Of two different texts one comes before the other.
pub proof fn lemma_before_total(a: Seq<char>, b: Seq<char>)
    ensures
        before(a, b) || a == b || before(b, a),
    decreases a.len(),
{
    if a.len() == 0 && b.len() == 0 {
        assert(a =~= b);
    } else if a.len() > 0 && b.len() > 0 && a[0] == b[0] {
        lemma_before_total(a.drop_first(), b.drop_first());
        if a.drop_first() == b.drop_first() {
            assert(a =~= seq![a[0]] + a.drop_first());
            assert(b =~= seq![b[0]] + b.drop_first());
        }
    }
}

/// Whether `a` comes before `b`.
pub fn comes_before(a: &str, b: &str) -> (r: bool)
    ensures
        r == before(a@, b@),
{
    let x = to_chars(a);
    let y = to_chars(b);
    let mut i: usize = 0;
    assert(x@.skip(0) =~= x@);
    assert(y@.skip(0) =~= y@);
    while i < x.len() && i < y.len()
        invariant
            x@ == a@,
            y@ == b@,
            i <= x.len(),
            i <= y.len(),
            before(x@, y@) == before(x@.skip(i as int), y@.skip(i as int)),
        decreases x.len() - i,
    {
        if x[i] != y[i] {
            return x[i] < y[i];
        }
        assert(x@.skip(i as int).drop_first() =~= x@.skip(i + 1));
        assert(y@.skip(i as int).drop_first() =~= y@.skip(i + 1));
        i += 1;
    }
    i < y.len()
}

/// A map from texts to values, walked in ascending order of the keys.
#[derive(Debug, Clone)]
pub struct TextMap<V> {
    entries: Vec<(String, V)>,
}

impl<V> View for TextMap<V> {
    type V = Map<Seq<char>, V>;

    closed spec fn view(&self) -> Map<Seq<char>, V> {
        Map::new(
            |k: Seq<char>| exists|i: int| 0 <= i < self.entries.len() && #[trigger] self.entries[i].0@ == k,
            |k: Seq<char>|
                self.entries[choose|i: int|
                    0 <= i < self.entries.len() && #[trigger] self.entries[i].0@ == k].1,
        )
    }
}

impl<V> TextMap<V> {
    /// The keys in the order in which the map is walked.
    pub closed spec fn keys(&self) -> Seq<Seq<char>> {
        Seq::new(self.entries@.len(), |i: int| self.entries[i].0@)
    }

    /// Each key comes before the keys that follow it.
    pub closed spec fn wf(&self) -> bool {
        forall|i: int, j: int|
            0 <= i < j < self.entries.len() ==> before(
                #[trigger] self.entries[i].0@,
                #[trigger] self.entries[j].0@,
            )
    }

    /// The walk visits each key of the map once, in ascending order.
    pub proof fn lemma_keys(&self)
        requires
            self.wf(),
        ensures
            forall|i: int, j: int|
                0 <= i < j < self.keys().len() ==> before(#[trigger] self.keys()[i], #[trigger] self.keys()[j]),
            self.keys().no_duplicates(),
            forall|k: Seq<char>| #[trigger] self@.contains_key(k) <==> self.keys().contains(k),
    {
        assert forall|i: int, j: int| 0 <= i < j < self.keys().len() implies before(
            #[trigger] self.keys()[i],
            #[trigger] self.keys()[j],
        ) by {
            assert(before(self.entries[i].0@, self.entries[j].0@));
        }
        assert forall|i: int, j: int|
            0 <= i < self.keys().len() && 0 <= j < self.keys().len() && i != j implies self.keys()[i]
            != self.keys()[j] by {
            lemma_before_irreflexive(self.keys()[i]);
            if i < j {
                assert(before(self.keys()[i], self.keys()[j]));
            } else {
                assert(before(self.keys()[j], self.keys()[i]));
            }
        }
        assert forall|k: Seq<char>| #[trigger] self@.contains_key(k) <==> self.keys().contains(k) by {
            if self@.contains_key(k) {
                let i = choose|i: int|
                    0 <= i < self.entries.len() && #[trigger] self.entries[i].0@ == k;
                assert(self.keys()[i] == k);
            }
            if self.keys().contains(k) {
                let i = choose|i: int| 0 <= i < self.keys().len() && self.keys()[i] == k;
                assert(self.entries[i].0@ == k);
            }
        }
    }

    proof fn lemma_entry(&self, i: int)
        requires
            self.wf(),
            0 <= i < self.entries.len(),
        ensures
            self@.contains_key(self.entries[i].0@),
            self@[self.entries[i].0@] == self.entries[i].1,
    {
        let k = self.entries[i].0@;
        let c = choose|c: int| 0 <= c < self.entries.len() && #[trigger] self.entries[c].0@ == k;
        assert(self.entries[i].0@ == k);
        lemma_before_irreflexive(k);
        if c < i {
            assert(before(self.entries[c].0@, self.entries[i].0@));
        } else if i < c {
            assert(before(self.entries[i].0@, self.entries[c].0@));
        }
    }

    /// A map without entries.
    pub fn new() -> (r: Self)
        ensures
            r.wf(),
            r@ == Map::<Seq<char>, V>::empty(),
            r.keys() == Seq::<Seq<char>>::empty(),
    {
        let r = TextMap { entries: Vec::new() };
        assert(r@ =~= Map::<Seq<char>, V>::empty());
        assert(r.keys() =~= Seq::<Seq<char>>::empty());
        r
    }

    /// How many entries there are.
    pub fn len(&self) -> (n: usize)
        ensures
            n == self.keys().len(),
    {
        self.entries.len()
    }

    /// Whether there are no entries.
    pub fn is_empty(&self) -> (r: bool)
        ensures
            r == (self.keys().len() == 0),
    {
        self.entries.len() == 0
    }

    /// The `i`-th key of the walk.
    pub fn key_at(&self, i: usize) -> (k: &str)
        requires
            self.wf(),
            i < self.keys().len(),
        ensures
            k@ == self.keys()[i as int],
            self@.contains_key(k@),
    {
        proof {
            self.lemma_entry(i as int);
        }
        self.entries[i].0.as_str()
    }

    /// The value that belongs to the `i`-th key of the walk.
    pub fn value_at(&self, i: usize) -> (v: &V)
        requires
            self.wf(),
            i < self.keys().len(),
        ensures
            *v == self@[self.keys()[i as int]],
    {
        proof {
            self.lemma_entry(i as int);
        }
        &self.entries[i].1
    }

    /// The position of the first key that does not come before `key`.
    fn position(&self, key: &str) -> (p: usize)
        requires
            self.wf(),
        ensures
            p <= self.entries.len(),
            forall|i: int| 0 <= i < p ==> before(#[trigger] self.entries[i].0@, key@),
            forall|i: int| p <= i < self.entries.len() ==> !before(#[trigger] self.entries[i].0@, key@),
            self@.contains_key(key@) <==> p < self.entries.len() && self.entries[p as int].0@ == key@,
    {
        let mut p: usize = 0;
        while p < self.entries.len() && comes_before(self.entries[p].0.as_str(), key)
            invariant
                self.wf(),
                p <= self.entries.len(),
                forall|i: int| 0 <= i < p ==> before(#[trigger] self.entries[i].0@, key@),
            decreases self.entries.len() - p,
        {
            p += 1;
        }
        proof {
            assert forall|i: int| p <= i < self.entries.len() implies !before(
                #[trigger] self.entries[i].0@,
                key@,
            ) by {
                if i > p && before(self.entries[i].0@, key@) {
                    lemma_before_transitive(
                        self.entries[p as int].0@,
                        self.entries[i].0@,
                        key@,
                    );
                }
            }
            if self@.contains_key(key@) {
                let c = choose|c: int|
                    0 <= c < self.entries.len() && #[trigger] self.entries[c].0@ == key@;
                lemma_before_irreflexive(key@);
                if c > p {
                    assert(before(self.entries[p as int].0@, self.entries[c].0@));
                }
                assert(c == p);
            }
        }
        p
    }

    /// The value stored under `key`.
    pub fn get(&self, key: &str) -> (r: Option<&V>)
        requires
            self.wf(),
        ensures
            match r {
                Some(v) => self@.contains_key(key@) && *v == self@[key@],
                None => !self@.contains_key(key@),
            },
    {
        let p: usize = self.position(key);
        if p < self.entries.len() && same(self.entries[p].0.as_str(), key) {
            proof {
                self.lemma_entry(p as int);
            }
            Some(&self.entries[p].1)
        } else {
            None
        }
    }

    /// The place of `key` in the walk.
    pub fn index_of(&self, key: &str) -> (r: Option<usize>)
        requires
            self.wf(),
        ensures
            match r {
                Some(i) => i < self.keys().len() && self.keys()[i as int] == key@,
                None => !self@.contains_key(key@),
            },
    {
        let p: usize = self.position(key);
        if p < self.entries.len() && same(self.entries[p].0.as_str(), key) {
            Some(p)
        } else {
            None
        }
    }

    /// Whether a value is stored under `key`.
    pub fn contains_key(&self, key: &str) -> (r: bool)
        requires
            self.wf(),
        ensures
            r == self@.contains_key(key@),
    {
        self.get(key).is_some()
    }

    proof fn lemma_insert(old_map: Self, new_map: Self, p: int, key: String, v: V)
        requires
            old_map.wf(),
            0 <= p <= old_map.entries.len(),
            new_map.entries@ == old_map.entries@.insert(p, (key, v)),
            forall|i: int| 0 <= i < p ==> before(#[trigger] old_map.entries[i].0@, key@),
            forall|i: int| p <= i < old_map.entries.len() ==> !before(#[trigger] old_map.entries[i].0@, key@),
            !old_map@.contains_key(key@),
        ensures
            new_map.wf(),
            new_map@ == old_map@.insert(key@, v),
    {
        let o = old_map.entries@;
        let n = new_map.entries@;
        assert forall|i: int, j: int| 0 <= i < j < n.len() implies before(
            #[trigger] n[i].0@,
            #[trigger] n[j].0@,
        ) by {
            if i == p {
                let b = o[j - 1].0@;
                assert(!before(b, key@));
                assert(old_map@.contains_key(b)) by {
                    old_map.lemma_entry(j - 1);
                }
                lemma_before_total(b, key@);
            } else if j == p {
                assert(before(o[i].0@, key@));
            } else {
                let a = if i < p { i } else { i - 1 };
                let b = if j < p { j } else { j - 1 };
                assert(before(o[a].0@, o[b].0@));
            }
        }
        assert(new_map.wf());
        assert forall|k: Seq<char>| new_map@.contains_key(k) <==> (k == key@ || old_map@.contains_key(k)) by {
            if new_map@.contains_key(k) {
                let c = choose|c: int| 0 <= c < n.len() && #[trigger] n[c].0@ == k;
                if c < p {
                    assert(o[c].0@ == k);
                } else if c > p {
                    assert(o[c - 1].0@ == k);
                }
            }
            if k == key@ {
                assert(n[p].0@ == k);
            }
            if old_map@.contains_key(k) {
                let c = choose|c: int| 0 <= c < o.len() && #[trigger] o[c].0@ == k;
                if c < p {
                    assert(n[c].0@ == k);
                } else {
                    assert(n[c + 1].0@ == k);
                }
            }
        }
        assert forall|k: Seq<char>| new_map@.contains_key(k) implies new_map@[k] == old_map@.insert(
            key@,
            v,
        )[k] by {
            let c = choose|c: int| 0 <= c < n.len() && #[trigger] n[c].0@ == k;
            new_map.lemma_entry(c);
            if c < p {
                old_map.lemma_entry(c);
            } else if c > p {
                old_map.lemma_entry(c - 1);
            }
        }
        assert(new_map@ =~= old_map@.insert(key@, v));
    }

    proof fn lemma_update(old_map: Self, new_map: Self, p: int, v: V)
        requires
            old_map.wf(),
            0 <= p < old_map.entries.len(),
            new_map.entries@ == old_map.entries@.update(p, (old_map.entries[p].0, v)),
        ensures
            new_map.wf(),
            new_map@ == old_map@.insert(old_map.entries[p].0@, v),
            new_map.keys() == old_map.keys(),
    {
        let o = old_map.entries@;
        let n = new_map.entries@;
        assert forall|i: int| 0 <= i < n.len() implies #[trigger] n[i].0 == o[i].0 by {}
        assert(new_map.keys() =~= old_map.keys());
        assert forall|i: int, j: int| 0 <= i < j < n.len() implies before(
            #[trigger] n[i].0@,
            #[trigger] n[j].0@,
        ) by {
            assert(before(o[i].0@, o[j].0@));
        }
        old_map.lemma_keys();
        new_map.lemma_keys();
        old_map.lemma_entry(p);
        assert forall|k: Seq<char>| new_map@.contains_key(k) implies new_map@[k] == old_map@.insert(
            o[p].0@,
            v,
        )[k] by {
            let c = choose|c: int| 0 <= c < n.len() && #[trigger] n[c].0@ == k;
            new_map.lemma_entry(c);
            old_map.lemma_entry(c);
            if c != p {
                lemma_before_irreflexive(k);
                if c < p {
                    assert(before(o[c].0@, o[p].0@));
                } else {
                    assert(before(o[p].0@, o[c].0@));
                }
            }
        }
        assert(new_map@ =~= old_map@.insert(o[p].0@, v));
    }

    /// Stores `value` under `key`, in place of what was stored there.
    pub fn insert(&mut self, key: &str, value: V)
        requires
            old(self).wf(),
        ensures
            final(self).wf(),
            final(self)@ == old(self)@.insert(key@, value),
    {
        let p: usize = self.position(key);
        let ghost o = *self;
        if p < self.entries.len() && same(self.entries[p].0.as_str(), key) {
            let k = self.entries[p].0.clone();
            self.entries.set(p, (k, value));
            proof {
                Self::lemma_update(o, *self, p as int, value);
            }
        } else {
            let k = key.to_owned();
            self.entries.insert(p, (k, value));
            proof {
                Self::lemma_insert(o, *self, p as int, k, value);
            }
        }
    }

    /// The place that holds the value stored under `key`.
    pub fn get_mut(&mut self, key: &str) -> (r: Option<&mut V>)
        requires
            old(self).wf(),
        ensures
            match r {
                Some(v) => {
                    &&& old(self)@.contains_key(key@)
                    &&& *v == old(self)@[key@]
                    &&& final(self).wf()
                    &&& final(self)@ == old(self)@.insert(key@, *final(v))
                    &&& final(self).keys() == old(self).keys()
                },
                None => !old(self)@.contains_key(key@) && *final(self) == *old(self),
            },
    {
        let p: usize = self.position(key);
        let ghost m = *self;
        if p < self.entries.len() && same(self.entries[p].0.as_str(), key) {
            proof {
                m.lemma_entry(p as int);
                assert forall|n: Self|
                    #![trigger n.wf()]
                    #![trigger n@]
                    n.entries@ == m.entries@.update(p as int, (m.entries[p as int].0, n.entries[p as int].1)) implies {
                    &&& n.wf()
                    &&& n@ == m@.insert(key@, n.entries[p as int].1)
                    &&& n.keys() == m.keys()
                } by {
                    Self::lemma_update(m, n, p as int, n.entries[p as int].1);
                }
            }
            Some(&mut self.entries[p].1)
        } else {
            None
        }
    }

    /// The place that holds the value stored under `key`; `fallback` is stored
    /// there first when there was none.
    pub fn get_or_insert(&mut self, key: &str, fallback: V) -> (r: &mut V)
        requires
            old(self).wf(),
        ensures
            *r == (if old(self)@.contains_key(key@) {
                old(self)@[key@]
            } else {
                fallback
            }),
            final(self).wf(),
            final(self)@ == old(self)@.insert(key@, *final(r)),
    {
        let p: usize = self.position(key);
        let ghost o = *self;
        if !(p < self.entries.len() && same(self.entries[p].0.as_str(), key)) {
            let k = key.to_owned();
            self.entries.insert(p, (k, fallback));
            proof {
                Self::lemma_insert(o, *self, p as int, k, fallback);
            }
        }
        let ghost m = *self;
        proof {
            m.lemma_entry(p as int);
            assert forall|n: Self|
                #![trigger n.wf()]
                #![trigger n@]
                n.entries@ == m.entries@.update(p as int, (m.entries[p as int].0, n.entries[p as int].1)) implies {
                &&& n.wf()
                &&& n@ == m@.insert(key@, n.entries[p as int].1)
            } by {
                Self::lemma_update(m, n, p as int, n.entries[p as int].1);
            }
            assert forall|v: V| #[trigger] m@.insert(key@, v) == o@.insert(key@, v) by {
                assert(m@.insert(key@, v) =~= o@.insert(key@, v));
            }
        }
        &mut self.entries[p].1
    }
}

impl TextMap<String> {
    /// A copy of the map.
    pub fn copy_texts(&self) -> (r: TextMap<String>)
        requires
            self.wf(),
        ensures
            r.wf(),
            r@ == self@,
            r.keys() == self.keys(),
    {
        let mut entries: Vec<(String, String)> = Vec::new();
        let mut i: usize = 0;
        while i < self.entries.len()
            invariant
                i <= self.entries.len(),
                entries@ == self.entries@.take(i as int),
            decreases self.entries.len() - i,
        {
            entries.push((self.entries[i].0.clone(), self.entries[i].1.clone()));
            assert(self.entries@.take(i + 1) =~= self.entries@.take(i as int).push(
                self.entries@[i as int],
            ));
            i += 1;
        }
        assert(self.entries@.take(self.entries@.len() as int) =~= self.entries@);
        let r = TextMap { entries };
        assert(r.keys() =~= self.keys());
        assert forall|k: Seq<char>| r@.contains_key(k) <==> self@.contains_key(k) by {}
        assert(r@ =~= self@);
        r
    }
}

/// Texts are ordered by the first character in which they differ; a text comes before those
/// that it is the beginning of.
pub proof fn law_first_difference_orders(common: Seq<char>, a: char, x: Seq<char>, b: char, y: Seq<char>)
    requires
        a != b,
    ensures
        before(common + seq![a] + x, common + seq![b] + y) <==> a < b,
        before(common, common + seq![a] + x),
        !before(common + seq![a] + x, common),
    decreases common.len(),
{
    let (l, r) = (common + seq![a] + x, common + seq![b] + y);
    if common.len() > 0 {
        let rest = common.drop_first();
        assert(l.drop_first() =~= rest + seq![a] + x);
        assert(r.drop_first() =~= rest + seq![b] + y);
        assert(l[0] == common[0] && r[0] == common[0]);
        law_first_difference_orders(rest, a, x, b, y);
    } else {
        assert(l[0] == a && r[0] == b);
    }
}

/// What was stored last under a key is found under it, and what is stored under the other
/// keys stays.
pub proof fn law_stored_value_is_found<V>(map: &mut TextMap<V>, key: &str, value: V, other: Seq<char>)
    requires
        call_ensures(TextMap::<V>::insert, (map, key, value), ()),
    ensures
        final(map)@.contains_key(key@),
        final(map)@[key@] == value,
        other != key@ ==> final(map)@.contains_key(other) == old(map)@.contains_key(other),
        other != key@ && old(map)@.contains_key(other) ==> final(map)@[other] == old(map)@[other],
        final(map).wf(),
{
}

/// A look into the map finds what is stored and nothing else.
pub proof fn law_lookup_finds_what_is_stored<V>(
    map: TextMap<V>,
    key: &str,
    found: Option<&V>,
    has: bool,
    place: Option<usize>,
)
    requires
        map.wf(),
        call_ensures(TextMap::<V>::get, (&map, key), found),
        call_ensures(TextMap::<V>::contains_key, (&map, key), has),
        call_ensures(TextMap::<V>::index_of, (&map, key), place),
    ensures
        found is Some <==> map@.contains_key(key@),
        found matches Some(v) ==> *v == map@[key@],
        has <==> map@.contains_key(key@),
        place is Some <==> map@.contains_key(key@),
        place matches Some(i) ==> map.keys()[i as int] == key@,
{
    map.lemma_keys();
}

} // verus!
