//! Why a task was not cached.

use vstd::prelude::*;
use crate::record::text_values;
use crate::text::{has_prefix, same, starts_with, strip_prefix, texts};
use crate::text_map::{before, TextMap};

verus! {

/// What is said of a change in a manifest.
pub open spec fn change_text(action: Seq<char>, key: Seq<char>) -> Seq<char> {
    if starts_with(key, "input:"@) {
        "cache miss: input "@ + action + ": "@ + key.skip("input:"@.len() as int)
    } else if starts_with(key, "env:"@) {
        "cache miss: env "@ + action + ": "@ + key.skip("env:"@.len() as int)
    } else if starts_with(key, "input_pattern:"@) {
        "cache miss: input pattern "@ + action + ": "@ + key.skip("input_pattern:"@.len() as int)
    } else if starts_with(key, "output:"@) {
        "cache miss: output contract "@ + action + ": "@ + key.skip("output:"@.len() as int)
    } else if key == "task:run"@ {
        "cache miss: task command "@ + action
    } else if key == "task:isolation"@ {
        "cache miss: isolation mode "@ + action
    } else if starts_with(key, "task:name:"@) {
        "cache miss: task identity "@ + action
    } else {
        "cache miss: "@ + key + " "@ + action
    }
}

/// `head`, `action`, a colon and `what`.
fn told(head: &str, action: &str, what: &str) -> (r: String)
    ensures
        r@ == head@ + action@ + ": "@ + what@,
{
    let mut r = head.to_owned();
    r.append(action);
    r.append(": ");
    r.append(what);
    r
}

/// What is said of a change in a manifest.
pub fn describe_manifest_change(action: &str, key: &str) -> (r: String)
    ensures
        r@ == change_text(action@, key@),
{
    if let Some(path) = strip_prefix(key, "input:") {
        return told("cache miss: input ", action, path.as_str());
    }
    if let Some(name) = strip_prefix(key, "env:") {
        return told("cache miss: env ", action, name.as_str());
    }
    if let Some(pattern) = strip_prefix(key, "input_pattern:") {
        return told("cache miss: input pattern ", action, pattern.as_str());
    }
    if let Some(output) = strip_prefix(key, "output:") {
        return told("cache miss: output contract ", action, output.as_str());
    }
    if same(key, "task:run") {
        let mut r = "cache miss: task command ".to_owned();
        r.append(action);
        return r;
    }
    if same(key, "task:isolation") {
        let mut r = "cache miss: isolation mode ".to_owned();
        r.append(action);
        return r;
    }
    if has_prefix(key, "task:name:") {
        let mut r = "cache miss: task identity ".to_owned();
        r.append(action);
        return r;
    }
    let mut r = "cache miss: ".to_owned();
    r.append(key);
    r.append(" ");
    r.append(action);
    r
}

/// What became of a key from one manifest to the next.
pub open spec fn change_of(
    previous: Map<Seq<char>, Seq<char>>,
    current: Map<Seq<char>, Seq<char>>,
    key: Seq<char>,
) -> Option<Seq<char>> {
    if previous.contains_key(key) && current.contains_key(key) {
        if previous[key] != current[key] {
            Some("changed"@)
        } else {
            None
        }
    } else if current.contains_key(key) {
        Some("added"@)
    } else if previous.contains_key(key) {
        Some("removed"@)
    } else {
        None
    }
}

/// What is said of the changes at the given keys, in their order.
pub open spec fn delta(
    keys: Seq<Seq<char>>,
    previous: Map<Seq<char>, Seq<char>>,
    current: Map<Seq<char>, Seq<char>>,
) -> Seq<Seq<char>>
    decreases keys.len(),
{
    if keys.len() == 0 {
        Seq::empty()
    } else {
        let front = delta(keys.drop_last(), previous, current);
        match change_of(previous, current, keys.last()) {
            Some(action) => front.push(change_text(action, keys.last())),
            None => front,
        }
    }
}

/// Whether `keys` holds the keys of both manifests, in ascending order.
pub open spec fn are_all_keys(
    keys: Seq<Seq<char>>,
    previous: Map<Seq<char>, Seq<char>>,
    current: Map<Seq<char>, Seq<char>>,
) -> bool {
    &&& forall|i: int, j: int|
        0 <= i < j < keys.len() ==> before(#[trigger] keys[i], #[trigger] keys[j])
    &&& forall|k: Seq<char>| #[trigger]
        keys.contains(k) <==> previous.contains_key(k) || current.contains_key(k)
}

/// Whether these are the changes from one manifest to the next.
pub open spec fn explains(
    reasons: Seq<Seq<char>>,
    previous: Map<Seq<char>, Seq<char>>,
    current: Map<Seq<char>, Seq<char>>,
) -> bool {
    exists|keys: Seq<Seq<char>>| #[trigger]
        are_all_keys(keys, previous, current) && reasons == delta(keys, previous, current)
}

/// Takes the keys of `from` over into `into`.
fn add_keys(into: &mut TextMap<bool>, from: &TextMap<String>)
    requires
        old(into).wf(),
        from.wf(),
    ensures
        final(into).wf(),
        forall|k: Seq<char>| #[trigger]
            final(into)@.contains_key(k) <==> old(into)@.contains_key(k) || from@.contains_key(k),
{
    let n: usize = from.len();
    let mut i: usize = 0;
    let ghost start = into@;
    proof {
        from.lemma_keys();
    }
    while i < n
        invariant
            into.wf(),
            from.wf(),
            n == from.keys().len(),
            i <= n,
            forall|k: Seq<char>| #[trigger] from@.contains_key(k) <==> from.keys().contains(k),
            forall|k: Seq<char>| #[trigger]
                into@.contains_key(k) <==> start.contains_key(k) || from.keys().take(
                    i as int,
                ).contains(k),
        decreases n - i,
    {
        let ghost mid = into@;
        let key = from.key_at(i);
        into.insert(key, true);
        proof {
            let t0 = from.keys().take(i as int);
            let t1 = from.keys().take(i + 1);
            assert(t1 =~= t0.push(key@));
            assert forall|k: Seq<char>| #[trigger] into@.contains_key(k) <==> start.contains_key(k)
                || t1.contains(k) by {
                if t0.contains(k) {
                    let a = choose|a: int| 0 <= a < t0.len() && t0[a] == k;
                    assert(t1[a] == k);
                }
                if k == key@ {
                    assert(t1[i as int] == k);
                }
                if t1.contains(k) && k != key@ {
                    let a = choose|a: int| 0 <= a < t1.len() && t1[a] == k;
                    assert(t0[a] == k);
                }
                assert(mid.contains_key(k) <==> start.contains_key(k) || t0.contains(k));
            }
        }
        i += 1;
    }
    assert(from.keys().take(n as int) =~= from.keys());
}

/// What changed from one manifest to the next, key by key in ascending order.
pub fn explain_manifest_delta(previous: &TextMap<String>, current: &TextMap<String>) -> (r: Vec<
    String,
>)
    requires
        previous.wf(),
        current.wf(),
    ensures
        explains(texts(r@), text_values(previous@), text_values(current@)),
{
    let mut all: TextMap<bool> = TextMap::new();
    add_keys(&mut all, previous);
    add_keys(&mut all, current);
    let ghost p = text_values(previous@);
    let ghost c = text_values(current@);
    proof {
        all.lemma_keys();
        assert forall|k: Seq<char>| #[trigger] all.keys().contains(k) <==> p.contains_key(k)
            || c.contains_key(k) by {
            assert(all@.contains_key(k) <==> all.keys().contains(k));
        }
        assert(are_all_keys(all.keys(), p, c));
    }
    let n: usize = all.len();
    let mut r: Vec<String> = Vec::new();
    let mut i: usize = 0;
    assert(texts(r@) =~= delta(all.keys().take(0), p, c));
    while i < n
        invariant
            all.wf(),
            previous.wf(),
            current.wf(),
            n == all.keys().len(),
            i <= n,
            p == text_values(previous@),
            c == text_values(current@),
            texts(r@) == delta(all.keys().take(i as int), p, c),
        decreases n - i,
    {
        broadcast use crate::text::lemma_texts_push;
        let key = all.key_at(i);
        assert(all.keys().take(i + 1).drop_last() =~= all.keys().take(i as int));
        assert(all.keys().take(i + 1).last() == key@);
        match (previous.get(key), current.get(key)) {
            (Some(old_value), Some(new_value)) => {
                assert(p[key@] == old_value@ && c[key@] == new_value@);
                if !same(old_value.as_str(), new_value.as_str()) {
                    r.push(describe_manifest_change("changed", key));
                }
            },
            (None, Some(_)) => {
                r.push(describe_manifest_change("added", key));
            },
            (Some(_), None) => {
                r.push(describe_manifest_change("removed", key));
            },
            (None, None) => {},
        }
        i += 1;
    }
    assert(all.keys().take(n as int) =~= all.keys());
    r
}

/// Why a task was not cached: what bypassed the cache, that it never ran, what
/// changed since it ran last, or that nothing but the fingerprint did.
pub open spec fn miss_reasons(
    force: bool,
    no_cache: bool,
    previous: Option<Map<Seq<char>, Seq<char>>>,
    current: Map<Seq<char>, Seq<char>>,
    reasons: Seq<Seq<char>>,
) -> bool {
    if force {
        reasons == seq!["cache bypass: --force supplied"@]
    } else if no_cache {
        reasons == seq!["cache bypass: --no-cache supplied"@]
    } else {
        match previous {
            None => reasons == seq!["cache miss: no prior execution record"@],
            Some(manifest) => {
                ||| reasons.len() > 0 && explains(reasons, manifest, current)
                ||| explains(Seq::empty(), manifest, current) && reasons
                    == seq!["cache miss: fingerprint changed"@]
            },
        }
    }
}

/// The manifest as a map of texts, where there is one.
pub open spec fn opt_manifest(m: Option<&TextMap<String>>) -> Option<Map<Seq<char>, Seq<char>>> {
    match m {
        Some(manifest) => Some(text_values(manifest@)),
        None => None,
    }
}

/// One reason alone.
fn only(reason: &str) -> (r: Vec<String>)
    ensures
        texts(r@) == seq![reason@],
{
    let mut r: Vec<String> = Vec::new();
    r.push(reason.to_owned());
    assert(texts(r@) =~= seq![reason@]);
    r
}

/// Why a task was not cached. `previous` is the manifest of its newest
/// execution.
pub fn explain_cache_miss(
    force: bool,
    no_cache: bool,
    previous: Option<&TextMap<String>>,
    current: &TextMap<String>,
) -> (r: Vec<String>)
    requires
        previous matches Some(manifest) ==> manifest.wf(),
        current.wf(),
    ensures
        miss_reasons(
            force,
            no_cache,
            opt_manifest(previous),
            text_values(current@),
            texts(r@),
        ),
{
    if force {
        return only("cache bypass: --force supplied");
    }
    if no_cache {
        return only("cache bypass: --no-cache supplied");
    }
    match previous {
        None => only("cache miss: no prior execution record"),
        Some(manifest) => {
            let reasons = explain_manifest_delta(manifest, current);
            if reasons.len() == 0 {
                assert(texts(reasons@) =~= Seq::<Seq<char>>::empty());
                only("cache miss: fingerprint changed")
            } else {
                reasons
            }
        },
    }
}

/// A key whose entry differs is reported, and a report is made of nothing else.
pub proof fn law_every_change_is_told(
    keys: Seq<Seq<char>>,
    previous: Map<Seq<char>, Seq<char>>,
    current: Map<Seq<char>, Seq<char>>,
    reason: Seq<char>,
)
    ensures
        delta(keys, previous, current).contains(reason) <==> exists|i: int|
            0 <= i < keys.len() && told_of(previous, current, #[trigger] keys[i], reason),
    decreases keys.len(),
{
    let all = delta(keys, previous, current);
    if keys.len() == 0 {
    } else {
        let front = delta(keys.drop_last(), previous, current);
        law_every_change_is_told(keys.drop_last(), previous, current, reason);
        if all.contains(reason) {
            let a = choose|a: int| 0 <= a < all.len() && all[a] == reason;
            if a < front.len() {
                assert(front[a] == reason);
                assert(front.contains(reason));
                let i = choose|i: int|
                    0 <= i < keys.drop_last().len() && told_of(
                        previous,
                        current,
                        #[trigger] keys.drop_last()[i],
                        reason,
                    );
                assert(told_of(previous, current, keys[i], reason));
            } else {
                assert(told_of(previous, current, keys[keys.len() - 1], reason));
            }
        }
        if exists|i: int|
            0 <= i < keys.len() && told_of(previous, current, #[trigger] keys[i], reason) {
            let i = choose|i: int|
                0 <= i < keys.len() && told_of(previous, current, #[trigger] keys[i], reason);
            if i < keys.len() - 1 {
                assert(keys.drop_last()[i] == keys[i]);
                assert(front.contains(reason));
                let a = choose|a: int| 0 <= a < front.len() && front[a] == reason;
                assert(all[a] == reason);
            } else {
                assert(all[all.len() - 1] == reason);
            }
        }
    }
}

/// Whether the reason tells what became of the key.
pub open spec fn told_of(
    previous: Map<Seq<char>, Seq<char>>,
    current: Map<Seq<char>, Seq<char>>,
    key: Seq<char>,
    reason: Seq<char>,
) -> bool {
    change_of(previous, current, key) matches Some(action) && reason == change_text(action, key)
}

/// Nothing is told of two manifests exactly when they hold the same.
pub proof fn law_equal_manifests_explain_nothing(
    previous: Map<Seq<char>, Seq<char>>,
    current: Map<Seq<char>, Seq<char>>,
)
    ensures
        explains(Seq::empty(), previous, current) ==> previous == current,
        previous == current ==> forall|reasons: Seq<Seq<char>>|
            explains(reasons, previous, current) ==> reasons.len() == 0,
{
    if explains(Seq::empty(), previous, current) {
        let keys = choose|keys: Seq<Seq<char>>| #[trigger]
            are_all_keys(keys, previous, current) && Seq::<Seq<char>>::empty() == delta(
                keys,
                previous,
                current,
            );
        assert forall|k: Seq<char>| previous.contains_key(k) || current.contains_key(k) implies change_of(
            previous,
            current,
            k,
        ) is None by {
            assert(keys.contains(k));
            let i = choose|i: int| 0 <= i < keys.len() && keys[i] == k;
            match change_of(previous, current, k) {
                Some(action) => {
                    let reason = change_text(action, k);
                    law_every_change_is_told(keys, previous, current, reason);
                    assert(told_of(previous, current, keys[i], reason));
                    assert(delta(keys, previous, current).contains(reason));
                },
                None => {},
            }
        }
        assert(previous =~= current) by {
            assert forall|k: Seq<char>| previous.contains_key(k) <==> current.contains_key(k) by {
                assert(previous.contains_key(k) || current.contains_key(k) ==> change_of(
                    previous,
                    current,
                    k,
                ) is None);
            }
            assert forall|k: Seq<char>| previous.contains_key(k) implies previous[k] == current[k] by {
                assert(change_of(previous, current, k) is None);
            }
        }
    }
    if previous == current {
        assert forall|reasons: Seq<Seq<char>>| explains(reasons, previous, current) implies reasons.len()
            == 0 by {
            let keys = choose|keys: Seq<Seq<char>>| #[trigger]
                are_all_keys(keys, previous, current) && reasons == delta(keys, previous, current);
            if reasons.len() > 0 {
                law_every_change_is_told(keys, previous, current, reasons[0]);
                assert(reasons.contains(reasons[0]));
            }
        }
    }
}

/// Whether one of the manifests has the key.
pub open spec fn in_either(
    previous: Map<Seq<char>, Seq<char>>,
    current: Map<Seq<char>, Seq<char>>,
    key: Seq<char>,
) -> bool {
    previous.contains_key(key) || current.contains_key(key)
}

/// Whether the word tells what can become of a key.
spec fn is_action(a: Seq<char>) -> bool {
    a == "added"@ || a == "removed"@ || a == "changed"@
}

/// A text that only one key can give is told exactly when that key has changed
/// so.
proof fn lemma_told_once(
    previous: Map<Seq<char>, Seq<char>>,
    current: Map<Seq<char>, Seq<char>>,
    reasons: Seq<Seq<char>>,
    key: Seq<char>,
    action: Seq<char>,
    text: Seq<char>,
)
    requires
        miss_reasons(false, false, Some(previous), current, reasons),
        is_action(action),
        text == change_text(action, key),
        text != "cache miss: fingerprint changed"@,
        forall|a: Seq<char>, k: Seq<char>|
            is_action(a) && in_either(previous, current, k) && #[trigger] change_text(a, k) == text
                ==> a == action && k == key,
    ensures
        reasons.contains(text) <==> change_of(previous, current, key) == Some(action),
{
    let listed = if reasons.len() > 0 && explains(reasons, previous, current) {
        reasons
    } else {
        Seq::empty()
    };
    assert(explains(listed, previous, current));
    let keys = choose|keys: Seq<Seq<char>>| #[trigger]
        are_all_keys(keys, previous, current) && listed == delta(keys, previous, current);
    law_every_change_is_told(keys, previous, current, text);
    if listed.contains(text) {
        let i = choose|i: int|
            0 <= i < keys.len() && told_of(previous, current, #[trigger] keys[i], text);
        assert(keys.contains(keys[i]));
        assert(in_either(previous, current, keys[i]));
    }
    if change_of(previous, current, key) == Some(action) {
        assert(in_either(previous, current, key));
        assert(keys.contains(key));
        let i = choose|i: int| 0 <= i < keys.len() && keys[i] == key;
        assert(told_of(previous, current, keys[i], text));
    }
    if listed.len() == 0 && reasons.contains(text) {
        let i = choose|i: int| 0 <= i < reasons.len() && reasons[i] == text;
    }
}

/// The literals that the texts are made of.
proof fn lemma_words()
    ensures
        "added"@ == seq!['a', 'd', 'd', 'e', 'd'],
        "removed"@ == seq!['r', 'e', 'm', 'o', 'v', 'e', 'd'],
        "changed"@ == seq!['c', 'h', 'a', 'n', 'g', 'e', 'd'],
        ": "@ == seq![':', ' '],
        ":"@ == seq![':'],
        " "@ == seq![' '],
        "cache miss: "@ == seq!['c', 'a', 'c', 'h', 'e', ' ', 'm', 'i', 's', 's', ':', ' '],
{
    reveal_strlit("added");
    reveal_strlit("removed");
    reveal_strlit("changed");
    reveal_strlit(": ");
    reveal_strlit(":");
    reveal_strlit(" ");
    reveal_strlit("cache miss: ");
    assert("added"@ =~= seq!['a', 'd', 'd', 'e', 'd']);
    assert("removed"@ =~= seq!['r', 'e', 'm', 'o', 'v', 'e', 'd']);
    assert("changed"@ =~= seq!['c', 'h', 'a', 'n', 'g', 'e', 'd']);
    assert(": "@ =~= seq![':', ' ']);
    assert(":"@ =~= seq![':']);
    assert(" "@ =~= seq![' ']);
    assert("cache miss: "@ =~= seq!['c', 'a', 'c', 'h', 'e', ' ', 'm', 'i', 's', 's', ':', ' ']);
}

/// The text that is told of an input with this name, and its key.
proof fn lemma_input_text(action: Seq<char>, name: Seq<char>)
    requires
        is_action(action),
    ensures
        change_text(action, "input:"@ + name) == "cache miss: input "@ + action + ": "@ + name,
        "cache miss: input "@ + action + ": "@ + name != "cache miss: fingerprint changed"@,
{
    lemma_words();
    reveal_strlit("cache miss: input ");
    reveal_strlit("cache miss: env ");
    reveal_strlit("cache miss: input pattern ");
    reveal_strlit("cache miss: output contract ");
    reveal_strlit("cache miss: task command ");
    reveal_strlit("cache miss: isolation mode ");
    reveal_strlit("cache miss: task identity ");
    reveal_strlit("input:");
    reveal_strlit("env:");
    reveal_strlit("input_pattern:");
    reveal_strlit("output:");
    reveal_strlit("task:run");
    reveal_strlit("task:isolation");
    reveal_strlit("task:name:");
    reveal_strlit("cache miss: fingerprint changed");
    let key = "input:"@ + name;
    let text = "cache miss: input "@ + action + ": "@ + name;
    assert(key.skip("input:"@.len() as int) =~= name);
    assert(key.subrange(0, "input:"@.len() as int) =~= "input:"@);
    assert(starts_with(key, "input:"@));
    assert(text[12] == "cache miss: input "@[12]);
    assert("cache miss: fingerprint changed"@[12] == 'f');
    assert(key[3] == 'u');
    if starts_with(key, "input:"@) {
        assert(key.subrange(0, 6)[0] == key[0] && key.subrange(0, 6)[5] == key[5]);
    }
    if starts_with(key, "env:"@) {
        assert(key.subrange(0, 4)[0] == key[0]);
    }
    if starts_with(key, "input_pattern:"@) {
        assert(key.subrange(0, 14)[0] == key[0]);
    }
}

/// No other key gives that text.
#[verifier::spinoff_prover]
proof fn lemma_input_text_is_its_own(a: Seq<char>, key: Seq<char>, b: Seq<char>, name: Seq<char>)
    requires
        is_action(a),
        is_action(b),
        !starts_with(key, "input "@ + b + ":"@),
        change_text(a, key) == "cache miss: input "@ + b + ": "@ + name,
    ensures
        a == b,
        key == "input:"@ + name,
{
    lemma_words();
    reveal_strlit("cache miss: input ");
    reveal_strlit("cache miss: env ");
    reveal_strlit("cache miss: input pattern ");
    reveal_strlit("cache miss: output contract ");
    reveal_strlit("cache miss: task command ");
    reveal_strlit("cache miss: isolation mode ");
    reveal_strlit("cache miss: task identity ");
    reveal_strlit("input:");
    reveal_strlit("env:");
    reveal_strlit("input_pattern:");
    reveal_strlit("output:");
    reveal_strlit("task:run");
    reveal_strlit("task:isolation");
    reveal_strlit("task:name:");
    reveal_strlit("input ");
    let t = change_text(a, key);
    let u = "cache miss: input "@ + b + ": "@ + name;
    let q = "input "@ + b + ":"@;
    let n = 18int;
    assert forall|i: int| 0 <= i < q.len() implies #[trigger] u[12 + i] == q[i] by {}
    assert(u[n] == b[0]);
    assert(t[12] == u[12] && t[13] == u[13] && t[18] == u[18] && t[n] == u[n]);
    if starts_with(key, "input:"@) {
        assert(t[n] == a[0]);
        assert(a == b);
        assert(t.skip(n + a.len() + 2) =~= key.skip(6));
        assert(u.skip(n + a.len() + 2) =~= name);
        assert(key.subrange(0, 6) =~= "input:"@);
        assert(key =~= "input:"@ + name);
    } else if starts_with(key, "input:"@) {
        assert(t[12] == 'i' && t[18] == a[0]);
    } else if starts_with(key, "env:"@) {
        assert(t[12] == 'e');
    } else if starts_with(key, "input_pattern:"@) {
        assert(t[12] == 'i' && t[18] == 'p');
    } else if starts_with(key, "output:"@) {
        assert(t[12] == 'o');
    } else if key == "task:run"@ {
        assert(t[12] == 't');
    } else if key == "task:isolation"@ {
        assert(t[12] == 'i' && t[13] == 's');
    } else if starts_with(key, "task:name:"@) {
        assert(t[12] == 't');
    } else {
        let m = key.len() as int;
        assert(t == "cache miss: "@ + key + " "@ + a);
        assert forall|i: int| 0 <= i < m implies #[trigger] key[i] == u[12 + i] by {
            assert(t[12 + i] == key[i]);
        }
        if m >= q.len() {
            assert(key.subrange(0, q.len() as int) =~= q);
        } else {
            assert(t[12 + m] == ' ');
            assert(u[12 + m] == q[m]);
            assert(m == 5);
            assert(t[13 + m] == a[0] && t[14 + m] == a[1]);
            assert(u[13 + m] == t[13 + m] && u[14 + m] == t[14 + m]);
            assert(t.len() == 13 + m + a.len());
            assert(u.len() >= n + b.len() + 2);
        }
    }
}

/// What is told of an input agrees with the manifests: that it was added exactly
/// when the current one alone has it, that it was removed exactly when the previous
/// one alone has it, and that it changed exactly when both have it with different
/// values. No key of the manifests is itself written like such a text.
pub proof fn law_inputs_are_told_as_they_changed(
    previous: Map<Seq<char>, Seq<char>>,
    current: Map<Seq<char>, Seq<char>>,
    reasons: Seq<Seq<char>>,
    name: Seq<char>,
)
    requires
        miss_reasons(false, false, Some(previous), current, reasons),
        forall|k: Seq<char>| #[trigger]
            in_either(previous, current, k) ==> {
                &&& !starts_with(k, "input added:"@)
                &&& !starts_with(k, "input removed:"@)
                &&& !starts_with(k, "input changed:"@)
            },
    ensures
        reasons.contains("cache miss: input added: "@ + name) <==> {
            &&& !previous.contains_key("input:"@ + name)
            &&& current.contains_key("input:"@ + name)
        },
        reasons.contains("cache miss: input removed: "@ + name) <==> {
            &&& previous.contains_key("input:"@ + name)
            &&& !current.contains_key("input:"@ + name)
        },
        reasons.contains("cache miss: input changed: "@ + name) <==> {
            &&& previous.contains_key("input:"@ + name)
            &&& current.contains_key("input:"@ + name)
            &&& previous["input:"@ + name] != current["input:"@ + name]
        },
{
    lemma_words();
    reveal_strlit("input ");
    reveal_strlit("cache miss: input ");
    reveal_strlit("input added:");
    reveal_strlit("input removed:");
    reveal_strlit("input changed:");
    reveal_strlit("cache miss: input added: ");
    reveal_strlit("cache miss: input removed: ");
    reveal_strlit("cache miss: input changed: ");
    assert("input added:"@ =~= "input "@ + "added"@ + ":"@);
    assert("input removed:"@ =~= "input "@ + "removed"@ + ":"@);
    assert("input changed:"@ =~= "input "@ + "changed"@ + ":"@);
    let key = "input:"@ + name;
    assert forall|b: Seq<char>| is_action(b) implies (reasons.contains(
        #[trigger] ("cache miss: input "@ + b + ": "@ + name),
    ) <==> change_of(previous, current, key) == Some(b)) by {
        let text = "cache miss: input "@ + b + ": "@ + name;
        assert forall|a: Seq<char>, k: Seq<char>|
            is_action(a) && in_either(previous, current, k) && #[trigger] change_text(a, k)
                == text implies a == b && k == key by {
            lemma_input_text_is_its_own(a, k, b, name);
        }
        lemma_input_text(b, name);
        lemma_told_once(previous, current, reasons, key, b, text);
    }
    assert("cache miss: input added: "@ + name =~= "cache miss: input "@ + "added"@ + ": "@ + name);
    assert("cache miss: input removed: "@ + name =~= "cache miss: input "@ + "removed"@ + ": "@ + name);
    assert("cache miss: input changed: "@ + name =~= "cache miss: input "@ + "changed"@ + ": "@ + name);
    assert("added"@[0] != "removed"@[0] && "added"@[0] != "changed"@[0] && "removed"@[0]
        != "changed"@[0]);
}

/// The text that is told of a variable with this name, and its key.
proof fn lemma_env_text(action: Seq<char>, name: Seq<char>)
    requires
        is_action(action),
    ensures
        change_text(action, "env:"@ + name) == "cache miss: env "@ + action + ": "@ + name,
        "cache miss: env "@ + action + ": "@ + name != "cache miss: fingerprint changed"@,
{
    lemma_words();
    reveal_strlit("cache miss: input ");
    reveal_strlit("cache miss: env ");
    reveal_strlit("cache miss: input pattern ");
    reveal_strlit("cache miss: output contract ");
    reveal_strlit("cache miss: task command ");
    reveal_strlit("cache miss: isolation mode ");
    reveal_strlit("cache miss: task identity ");
    reveal_strlit("input:");
    reveal_strlit("env:");
    reveal_strlit("input_pattern:");
    reveal_strlit("output:");
    reveal_strlit("task:run");
    reveal_strlit("task:isolation");
    reveal_strlit("task:name:");
    reveal_strlit("cache miss: fingerprint changed");
    let key = "env:"@ + name;
    let text = "cache miss: env "@ + action + ": "@ + name;
    assert(key.skip("env:"@.len() as int) =~= name);
    assert(key.subrange(0, "env:"@.len() as int) =~= "env:"@);
    assert(starts_with(key, "env:"@));
    assert(text[12] == "cache miss: env "@[12]);
    assert("cache miss: fingerprint changed"@[12] == 'f');
    assert(key[3] == ':');
    if starts_with(key, "input:"@) {
        assert(key.subrange(0, 6)[0] == key[0] && key.subrange(0, 6)[5] == key[5]);
    }
    if starts_with(key, "env:"@) {
        assert(key.subrange(0, 4)[0] == key[0]);
    }
    if starts_with(key, "input_pattern:"@) {
        assert(key.subrange(0, 14)[0] == key[0]);
    }
}

/// No other key gives that text.
#[verifier::spinoff_prover]
proof fn lemma_env_text_is_its_own(a: Seq<char>, key: Seq<char>, b: Seq<char>, name: Seq<char>)
    requires
        is_action(a),
        is_action(b),
        !starts_with(key, "env "@ + b + ":"@),
        change_text(a, key) == "cache miss: env "@ + b + ": "@ + name,
    ensures
        a == b,
        key == "env:"@ + name,
{
    lemma_words();
    reveal_strlit("cache miss: input ");
    reveal_strlit("cache miss: env ");
    reveal_strlit("cache miss: input pattern ");
    reveal_strlit("cache miss: output contract ");
    reveal_strlit("cache miss: task command ");
    reveal_strlit("cache miss: isolation mode ");
    reveal_strlit("cache miss: task identity ");
    reveal_strlit("input:");
    reveal_strlit("env:");
    reveal_strlit("input_pattern:");
    reveal_strlit("output:");
    reveal_strlit("task:run");
    reveal_strlit("task:isolation");
    reveal_strlit("task:name:");
    reveal_strlit("env ");
    let t = change_text(a, key);
    let u = "cache miss: env "@ + b + ": "@ + name;
    let q = "env "@ + b + ":"@;
    let n = 16int;
    assert forall|i: int| 0 <= i < q.len() implies #[trigger] u[12 + i] == q[i] by {}
    assert(u[n] == b[0]);
    assert(t[12] == u[12] && t[13] == u[13] && t[18] == u[18] && t[n] == u[n]);
    if starts_with(key, "env:"@) {
        assert(t[n] == a[0]);
        assert(a == b);
        assert(t.skip(n + a.len() + 2) =~= key.skip(4));
        assert(u.skip(n + a.len() + 2) =~= name);
        assert(key.subrange(0, 4) =~= "env:"@);
        assert(key =~= "env:"@ + name);
    } else if starts_with(key, "input:"@) {
        assert(t[12] == 'i' && t[18] == a[0]);
    } else if starts_with(key, "env:"@) {
        assert(t[12] == 'e');
    } else if starts_with(key, "input_pattern:"@) {
        assert(t[12] == 'i' && t[18] == 'p');
    } else if starts_with(key, "output:"@) {
        assert(t[12] == 'o');
    } else if key == "task:run"@ {
        assert(t[12] == 't');
    } else if key == "task:isolation"@ {
        assert(t[12] == 'i' && t[13] == 's');
    } else if starts_with(key, "task:name:"@) {
        assert(t[12] == 't');
    } else {
        let m = key.len() as int;
        assert(t == "cache miss: "@ + key + " "@ + a);
        assert forall|i: int| 0 <= i < m implies #[trigger] key[i] == u[12 + i] by {
            assert(t[12 + i] == key[i]);
        }
        if m >= q.len() {
            assert(key.subrange(0, q.len() as int) =~= q);
        } else {
            assert(t[12 + m] == ' ');
            assert(u[12 + m] == q[m]);
            assert(m == 3);
            assert(t[13 + m] == a[0] && t[14 + m] == a[1]);
            assert(u[13 + m] == t[13 + m] && u[14 + m] == t[14 + m]);
            assert(t.len() == 13 + m + a.len());
            assert(u.len() >= n + b.len() + 2);
        }
    }
}

/// What is told of a variable agrees with the manifests: that it was added exactly
/// when the current one alone has it, that it was removed exactly when the previous
/// one alone has it, and that it changed exactly when both have it with different
/// values. No key of the manifests is itself written like such a text.
pub proof fn law_variables_are_told_as_they_changed(
    previous: Map<Seq<char>, Seq<char>>,
    current: Map<Seq<char>, Seq<char>>,
    reasons: Seq<Seq<char>>,
    name: Seq<char>,
)
    requires
        miss_reasons(false, false, Some(previous), current, reasons),
        forall|k: Seq<char>| #[trigger]
            in_either(previous, current, k) ==> {
                &&& !starts_with(k, "env added:"@)
                &&& !starts_with(k, "env removed:"@)
                &&& !starts_with(k, "env changed:"@)
            },
    ensures
        reasons.contains("cache miss: env added: "@ + name) <==> {
            &&& !previous.contains_key("env:"@ + name)
            &&& current.contains_key("env:"@ + name)
        },
        reasons.contains("cache miss: env removed: "@ + name) <==> {
            &&& previous.contains_key("env:"@ + name)
            &&& !current.contains_key("env:"@ + name)
        },
        reasons.contains("cache miss: env changed: "@ + name) <==> {
            &&& previous.contains_key("env:"@ + name)
            &&& current.contains_key("env:"@ + name)
            &&& previous["env:"@ + name] != current["env:"@ + name]
        },
{
    lemma_words();
    reveal_strlit("env ");
    reveal_strlit("cache miss: env ");
    reveal_strlit("env added:");
    reveal_strlit("env removed:");
    reveal_strlit("env changed:");
    reveal_strlit("cache miss: env added: ");
    reveal_strlit("cache miss: env removed: ");
    reveal_strlit("cache miss: env changed: ");
    assert("env added:"@ =~= "env "@ + "added"@ + ":"@);
    assert("env removed:"@ =~= "env "@ + "removed"@ + ":"@);
    assert("env changed:"@ =~= "env "@ + "changed"@ + ":"@);
    let key = "env:"@ + name;
    assert forall|b: Seq<char>| is_action(b) implies (reasons.contains(
        #[trigger] ("cache miss: env "@ + b + ": "@ + name),
    ) <==> change_of(previous, current, key) == Some(b)) by {
        let text = "cache miss: env "@ + b + ": "@ + name;
        assert forall|a: Seq<char>, k: Seq<char>|
            is_action(a) && in_either(previous, current, k) && #[trigger] change_text(a, k)
                == text implies a == b && k == key by {
            lemma_env_text_is_its_own(a, k, b, name);
        }
        lemma_env_text(b, name);
        lemma_told_once(previous, current, reasons, key, b, text);
    }
    assert("cache miss: env added: "@ + name =~= "cache miss: env "@ + "added"@ + ": "@ + name);
    assert("cache miss: env removed: "@ + name =~= "cache miss: env "@ + "removed"@ + ": "@ + name);
    assert("cache miss: env changed: "@ + name =~= "cache miss: env "@ + "changed"@ + ": "@ + name);
    assert("added"@[0] != "removed"@[0] && "added"@[0] != "changed"@[0] && "removed"@[0]
        != "changed"@[0]);
}

/// The text that is told of an input pattern with this name, and its key.
proof fn lemma_pattern_text(action: Seq<char>, name: Seq<char>)
    requires
        is_action(action),
    ensures
        change_text(action, "input_pattern:"@ + name) == "cache miss: input pattern "@ + action + ": "@ + name,
        "cache miss: input pattern "@ + action + ": "@ + name != "cache miss: fingerprint changed"@,
{
    lemma_words();
    reveal_strlit("cache miss: input ");
    reveal_strlit("cache miss: env ");
    reveal_strlit("cache miss: input pattern ");
    reveal_strlit("cache miss: output contract ");
    reveal_strlit("cache miss: task command ");
    reveal_strlit("cache miss: isolation mode ");
    reveal_strlit("cache miss: task identity ");
    reveal_strlit("input:");
    reveal_strlit("env:");
    reveal_strlit("input_pattern:");
    reveal_strlit("output:");
    reveal_strlit("task:run");
    reveal_strlit("task:isolation");
    reveal_strlit("task:name:");
    reveal_strlit("cache miss: fingerprint changed");
    let key = "input_pattern:"@ + name;
    let text = "cache miss: input pattern "@ + action + ": "@ + name;
    assert(key.skip("input_pattern:"@.len() as int) =~= name);
    assert(key.subrange(0, "input_pattern:"@.len() as int) =~= "input_pattern:"@);
    assert(starts_with(key, "input_pattern:"@));
    assert(text[12] == "cache miss: input pattern "@[12]);
    assert("cache miss: fingerprint changed"@[12] == 'f');
    assert(key[3] == 'u');
    if starts_with(key, "input:"@) {
        assert(key.subrange(0, 6)[0] == key[0] && key.subrange(0, 6)[5] == key[5]);
    }
    if starts_with(key, "env:"@) {
        assert(key.subrange(0, 4)[0] == key[0]);
    }
    if starts_with(key, "input_pattern:"@) {
        assert(key.subrange(0, 14)[0] == key[0]);
    }
}

/// No other key gives that text.
#[verifier::spinoff_prover]
proof fn lemma_pattern_text_is_its_own(a: Seq<char>, key: Seq<char>, b: Seq<char>, name: Seq<char>)
    requires
        is_action(a),
        is_action(b),
        !starts_with(key, "input pattern "@ + b + ":"@),
        change_text(a, key) == "cache miss: input pattern "@ + b + ": "@ + name,
    ensures
        a == b,
        key == "input_pattern:"@ + name,
{
    lemma_words();
    reveal_strlit("cache miss: input ");
    reveal_strlit("cache miss: env ");
    reveal_strlit("cache miss: input pattern ");
    reveal_strlit("cache miss: output contract ");
    reveal_strlit("cache miss: task command ");
    reveal_strlit("cache miss: isolation mode ");
    reveal_strlit("cache miss: task identity ");
    reveal_strlit("input:");
    reveal_strlit("env:");
    reveal_strlit("input_pattern:");
    reveal_strlit("output:");
    reveal_strlit("task:run");
    reveal_strlit("task:isolation");
    reveal_strlit("task:name:");
    reveal_strlit("input pattern ");
    let t = change_text(a, key);
    let u = "cache miss: input pattern "@ + b + ": "@ + name;
    let q = "input pattern "@ + b + ":"@;
    let n = 26int;
    assert forall|i: int| 0 <= i < q.len() implies #[trigger] u[12 + i] == q[i] by {}
    assert(u[n] == b[0]);
    assert(t[12] == u[12] && t[13] == u[13] && t[18] == u[18] && t[n] == u[n]);
    if starts_with(key, "input_pattern:"@) {
        assert(t[n] == a[0]);
        assert(a == b);
        assert(t.skip(n + a.len() + 2) =~= key.skip(14));
        assert(u.skip(n + a.len() + 2) =~= name);
        assert(key.subrange(0, 14) =~= "input_pattern:"@);
        assert(key =~= "input_pattern:"@ + name);
    } else if starts_with(key, "input:"@) {
        assert(t[12] == 'i' && t[18] == a[0]);
    } else if starts_with(key, "env:"@) {
        assert(t[12] == 'e');
    } else if starts_with(key, "input_pattern:"@) {
        assert(t[12] == 'i' && t[18] == 'p');
    } else if starts_with(key, "output:"@) {
        assert(t[12] == 'o');
    } else if key == "task:run"@ {
        assert(t[12] == 't');
    } else if key == "task:isolation"@ {
        assert(t[12] == 'i' && t[13] == 's');
    } else if starts_with(key, "task:name:"@) {
        assert(t[12] == 't');
    } else {
        let m = key.len() as int;
        assert(t == "cache miss: "@ + key + " "@ + a);
        assert forall|i: int| 0 <= i < m implies #[trigger] key[i] == u[12 + i] by {
            assert(t[12 + i] == key[i]);
        }
        if m >= q.len() {
            assert(key.subrange(0, q.len() as int) =~= q);
        } else {
            assert(t[12 + m] == ' ');
            assert(u[12 + m] == q[m]);
            assert(m == 5 || m == 13);
            assert(t[13 + m] == a[0] && t[14 + m] == a[1]);
            assert(u[13 + m] == t[13 + m] && u[14 + m] == t[14 + m]);
            assert(t.len() == 13 + m + a.len());
            assert(u.len() >= n + b.len() + 2);
        }
    }
}

/// What is told of an input pattern agrees with the manifests: that it was added exactly
/// when the current one alone has it, that it was removed exactly when the previous
/// one alone has it, and that it changed exactly when both have it with different
/// values. No key of the manifests is itself written like such a text.
pub proof fn law_patterns_are_told_as_they_changed(
    previous: Map<Seq<char>, Seq<char>>,
    current: Map<Seq<char>, Seq<char>>,
    reasons: Seq<Seq<char>>,
    name: Seq<char>,
)
    requires
        miss_reasons(false, false, Some(previous), current, reasons),
        forall|k: Seq<char>| #[trigger]
            in_either(previous, current, k) ==> {
                &&& !starts_with(k, "input pattern added:"@)
                &&& !starts_with(k, "input pattern removed:"@)
                &&& !starts_with(k, "input pattern changed:"@)
            },
    ensures
        reasons.contains("cache miss: input pattern added: "@ + name) <==> {
            &&& !previous.contains_key("input_pattern:"@ + name)
            &&& current.contains_key("input_pattern:"@ + name)
        },
        reasons.contains("cache miss: input pattern removed: "@ + name) <==> {
            &&& previous.contains_key("input_pattern:"@ + name)
            &&& !current.contains_key("input_pattern:"@ + name)
        },
        reasons.contains("cache miss: input pattern changed: "@ + name) <==> {
            &&& previous.contains_key("input_pattern:"@ + name)
            &&& current.contains_key("input_pattern:"@ + name)
            &&& previous["input_pattern:"@ + name] != current["input_pattern:"@ + name]
        },
{
    lemma_words();
    reveal_strlit("input pattern ");
    reveal_strlit("cache miss: input pattern ");
    reveal_strlit("input pattern added:");
    reveal_strlit("input pattern removed:");
    reveal_strlit("input pattern changed:");
    reveal_strlit("cache miss: input pattern added: ");
    reveal_strlit("cache miss: input pattern removed: ");
    reveal_strlit("cache miss: input pattern changed: ");
    assert("input pattern added:"@ =~= "input pattern "@ + "added"@ + ":"@);
    assert("input pattern removed:"@ =~= "input pattern "@ + "removed"@ + ":"@);
    assert("input pattern changed:"@ =~= "input pattern "@ + "changed"@ + ":"@);
    let key = "input_pattern:"@ + name;
    assert forall|b: Seq<char>| is_action(b) implies (reasons.contains(
        #[trigger] ("cache miss: input pattern "@ + b + ": "@ + name),
    ) <==> change_of(previous, current, key) == Some(b)) by {
        let text = "cache miss: input pattern "@ + b + ": "@ + name;
        assert forall|a: Seq<char>, k: Seq<char>|
            is_action(a) && in_either(previous, current, k) && #[trigger] change_text(a, k)
                == text implies a == b && k == key by {
            lemma_pattern_text_is_its_own(a, k, b, name);
        }
        lemma_pattern_text(b, name);
        lemma_told_once(previous, current, reasons, key, b, text);
    }
    assert("cache miss: input pattern added: "@ + name =~= "cache miss: input pattern "@ + "added"@ + ": "@ + name);
    assert("cache miss: input pattern removed: "@ + name =~= "cache miss: input pattern "@ + "removed"@ + ": "@ + name);
    assert("cache miss: input pattern changed: "@ + name =~= "cache miss: input pattern "@ + "changed"@ + ": "@ + name);
    assert("added"@[0] != "removed"@[0] && "added"@[0] != "changed"@[0] && "removed"@[0]
        != "changed"@[0]);
}

/// The text that is told of an output with this name, and its key.
proof fn lemma_output_text(action: Seq<char>, name: Seq<char>)
    requires
        is_action(action),
    ensures
        change_text(action, "output:"@ + name) == "cache miss: output contract "@ + action + ": "@ + name,
        "cache miss: output contract "@ + action + ": "@ + name != "cache miss: fingerprint changed"@,
{
    lemma_words();
    reveal_strlit("cache miss: input ");
    reveal_strlit("cache miss: env ");
    reveal_strlit("cache miss: input pattern ");
    reveal_strlit("cache miss: output contract ");
    reveal_strlit("cache miss: task command ");
    reveal_strlit("cache miss: isolation mode ");
    reveal_strlit("cache miss: task identity ");
    reveal_strlit("input:");
    reveal_strlit("env:");
    reveal_strlit("input_pattern:");
    reveal_strlit("output:");
    reveal_strlit("task:run");
    reveal_strlit("task:isolation");
    reveal_strlit("task:name:");
    reveal_strlit("cache miss: fingerprint changed");
    let key = "output:"@ + name;
    let text = "cache miss: output contract "@ + action + ": "@ + name;
    assert(key.skip("output:"@.len() as int) =~= name);
    assert(key.subrange(0, "output:"@.len() as int) =~= "output:"@);
    assert(starts_with(key, "output:"@));
    assert(text[12] == "cache miss: output contract "@[12]);
    assert("cache miss: fingerprint changed"@[12] == 'f');
    assert(key[3] == 'p');
    if starts_with(key, "input:"@) {
        assert(key.subrange(0, 6)[0] == key[0] && key.subrange(0, 6)[5] == key[5]);
    }
    if starts_with(key, "env:"@) {
        assert(key.subrange(0, 4)[0] == key[0]);
    }
    if starts_with(key, "input_pattern:"@) {
        assert(key.subrange(0, 14)[0] == key[0]);
    }
}

/// No other key gives that text.
#[verifier::spinoff_prover]
proof fn lemma_output_text_is_its_own(a: Seq<char>, key: Seq<char>, b: Seq<char>, name: Seq<char>)
    requires
        is_action(a),
        is_action(b),
        !starts_with(key, "output contract "@ + b + ":"@),
        change_text(a, key) == "cache miss: output contract "@ + b + ": "@ + name,
    ensures
        a == b,
        key == "output:"@ + name,
{
    lemma_words();
    reveal_strlit("cache miss: input ");
    reveal_strlit("cache miss: env ");
    reveal_strlit("cache miss: input pattern ");
    reveal_strlit("cache miss: output contract ");
    reveal_strlit("cache miss: task command ");
    reveal_strlit("cache miss: isolation mode ");
    reveal_strlit("cache miss: task identity ");
    reveal_strlit("input:");
    reveal_strlit("env:");
    reveal_strlit("input_pattern:");
    reveal_strlit("output:");
    reveal_strlit("task:run");
    reveal_strlit("task:isolation");
    reveal_strlit("task:name:");
    reveal_strlit("output contract ");
    let t = change_text(a, key);
    let u = "cache miss: output contract "@ + b + ": "@ + name;
    let q = "output contract "@ + b + ":"@;
    let n = 28int;
    assert forall|i: int| 0 <= i < q.len() implies #[trigger] u[12 + i] == q[i] by {}
    assert(u[n] == b[0]);
    assert(t[12] == u[12] && t[13] == u[13] && t[18] == u[18] && t[n] == u[n]);
    if starts_with(key, "output:"@) {
        assert(t[n] == a[0]);
        assert(a == b);
        assert(t.skip(n + a.len() + 2) =~= key.skip(7));
        assert(u.skip(n + a.len() + 2) =~= name);
        assert(key.subrange(0, 7) =~= "output:"@);
        assert(key =~= "output:"@ + name);
    } else if starts_with(key, "input:"@) {
        assert(t[12] == 'i' && t[18] == a[0]);
    } else if starts_with(key, "env:"@) {
        assert(t[12] == 'e');
    } else if starts_with(key, "input_pattern:"@) {
        assert(t[12] == 'i' && t[18] == 'p');
    } else if starts_with(key, "output:"@) {
        assert(t[12] == 'o');
    } else if key == "task:run"@ {
        assert(t[12] == 't');
    } else if key == "task:isolation"@ {
        assert(t[12] == 'i' && t[13] == 's');
    } else if starts_with(key, "task:name:"@) {
        assert(t[12] == 't');
    } else {
        let m = key.len() as int;
        assert(t == "cache miss: "@ + key + " "@ + a);
        assert forall|i: int| 0 <= i < m implies #[trigger] key[i] == u[12 + i] by {
            assert(t[12 + i] == key[i]);
        }
        if m >= q.len() {
            assert(key.subrange(0, q.len() as int) =~= q);
        } else {
            assert(t[12 + m] == ' ');
            assert(u[12 + m] == q[m]);
            assert(m == 6 || m == 15);
            assert(t[13 + m] == a[0] && t[14 + m] == a[1]);
            assert(u[13 + m] == t[13 + m] && u[14 + m] == t[14 + m]);
            assert(t.len() == 13 + m + a.len());
            assert(u.len() >= n + b.len() + 2);
        }
    }
}

/// What is told of an output agrees with the manifests: that it was added exactly
/// when the current one alone has it, that it was removed exactly when the previous
/// one alone has it, and that it changed exactly when both have it with different
/// values. No key of the manifests is itself written like such a text.
pub proof fn law_outputs_are_told_as_they_changed(
    previous: Map<Seq<char>, Seq<char>>,
    current: Map<Seq<char>, Seq<char>>,
    reasons: Seq<Seq<char>>,
    name: Seq<char>,
)
    requires
        miss_reasons(false, false, Some(previous), current, reasons),
        forall|k: Seq<char>| #[trigger]
            in_either(previous, current, k) ==> {
                &&& !starts_with(k, "output contract added:"@)
                &&& !starts_with(k, "output contract removed:"@)
                &&& !starts_with(k, "output contract changed:"@)
            },
    ensures
        reasons.contains("cache miss: output contract added: "@ + name) <==> {
            &&& !previous.contains_key("output:"@ + name)
            &&& current.contains_key("output:"@ + name)
        },
        reasons.contains("cache miss: output contract removed: "@ + name) <==> {
            &&& previous.contains_key("output:"@ + name)
            &&& !current.contains_key("output:"@ + name)
        },
        reasons.contains("cache miss: output contract changed: "@ + name) <==> {
            &&& previous.contains_key("output:"@ + name)
            &&& current.contains_key("output:"@ + name)
            &&& previous["output:"@ + name] != current["output:"@ + name]
        },
{
    lemma_words();
    reveal_strlit("output contract ");
    reveal_strlit("cache miss: output contract ");
    reveal_strlit("output contract added:");
    reveal_strlit("output contract removed:");
    reveal_strlit("output contract changed:");
    reveal_strlit("cache miss: output contract added: ");
    reveal_strlit("cache miss: output contract removed: ");
    reveal_strlit("cache miss: output contract changed: ");
    assert("output contract added:"@ =~= "output contract "@ + "added"@ + ":"@);
    assert("output contract removed:"@ =~= "output contract "@ + "removed"@ + ":"@);
    assert("output contract changed:"@ =~= "output contract "@ + "changed"@ + ":"@);
    let key = "output:"@ + name;
    assert forall|b: Seq<char>| is_action(b) implies (reasons.contains(
        #[trigger] ("cache miss: output contract "@ + b + ": "@ + name),
    ) <==> change_of(previous, current, key) == Some(b)) by {
        let text = "cache miss: output contract "@ + b + ": "@ + name;
        assert forall|a: Seq<char>, k: Seq<char>|
            is_action(a) && in_either(previous, current, k) && #[trigger] change_text(a, k)
                == text implies a == b && k == key by {
            lemma_output_text_is_its_own(a, k, b, name);
        }
        lemma_output_text(b, name);
        lemma_told_once(previous, current, reasons, key, b, text);
    }
    assert("cache miss: output contract added: "@ + name =~= "cache miss: output contract "@ + "added"@ + ": "@ + name);
    assert("cache miss: output contract removed: "@ + name =~= "cache miss: output contract "@ + "removed"@ + ": "@ + name);
    assert("cache miss: output contract changed: "@ + name =~= "cache miss: output contract "@ + "changed"@ + ": "@ + name);
    assert("added"@[0] != "removed"@[0] && "added"@[0] != "changed"@[0] && "removed"@[0]
        != "changed"@[0]);
}

/// The text that is told of the command, and its key.
proof fn lemma_command_text(action: Seq<char>)
    requires
        is_action(action),
    ensures
        change_text(action, "task:run"@) == "cache miss: task command "@ + action,
        "cache miss: task command "@ + action != "cache miss: fingerprint changed"@,
{
    lemma_words();
    reveal_strlit("cache miss: input ");
    reveal_strlit("cache miss: env ");
    reveal_strlit("cache miss: input pattern ");
    reveal_strlit("cache miss: output contract ");
    reveal_strlit("cache miss: task command ");
    reveal_strlit("cache miss: isolation mode ");
    reveal_strlit("cache miss: task identity ");
    reveal_strlit("input:");
    reveal_strlit("env:");
    reveal_strlit("input_pattern:");
    reveal_strlit("output:");
    reveal_strlit("task:run");
    reveal_strlit("task:isolation");
    reveal_strlit("task:name:");
    reveal_strlit("cache miss: fingerprint changed");
    let key = "task:run"@;
    let text = "cache miss: task command "@ + action;
    assert(text[12] == "cache miss: task command "@[12]);
    assert("cache miss: fingerprint changed"@[12] == 'f');
    if starts_with(key, "input:"@) {
        assert(key.subrange(0, 6)[0] == key[0]);
    }
    if starts_with(key, "env:"@) {
        assert(key.subrange(0, 4)[0] == key[0]);
    }
    if starts_with(key, "output:"@) {
        assert(key.subrange(0, 7)[0] == key[0]);
    }
    if starts_with(key, "input_pattern:"@) {
        assert(key.subrange(0, 14)[0] == key[0]);
    }
    assert("task:run"@[5] != "task:isolation"@[5]);
}

/// No other key gives that text.
#[verifier::spinoff_prover]
proof fn lemma_command_text_is_its_own(a: Seq<char>, key: Seq<char>, b: Seq<char>)
    requires
        is_action(a),
        is_action(b),
        key != "task command"@,
        change_text(a, key) == "cache miss: task command "@ + b,
    ensures
        a == b,
        key == "task:run"@,
{
    lemma_words();
    reveal_strlit("cache miss: input ");
    reveal_strlit("cache miss: env ");
    reveal_strlit("cache miss: input pattern ");
    reveal_strlit("cache miss: output contract ");
    reveal_strlit("cache miss: task command ");
    reveal_strlit("cache miss: isolation mode ");
    reveal_strlit("cache miss: task identity ");
    reveal_strlit("input:");
    reveal_strlit("env:");
    reveal_strlit("input_pattern:");
    reveal_strlit("output:");
    reveal_strlit("task:run");
    reveal_strlit("task:isolation");
    reveal_strlit("task:name:");
    reveal_strlit("task command");
    let t = change_text(a, key);
    let u = "cache miss: task command "@ + b;
    assert(t[12] == u[12] && t[13] == u[13] && t[17] == u[17] && t[18] == u[18]);
    assert(u[25] == b[0]);
    if starts_with(key, "input:"@) {
        assert(t[12] == 'i' && t[13] == 'n');
    } else if starts_with(key, "env:"@) {
        assert(t[12] == 'e');
    } else if starts_with(key, "input_pattern:"@) {
        assert(t[12] == 'i' && t[13] == 'n');
    } else if starts_with(key, "output:"@) {
        assert(t[12] == 'o');
    } else if key == "task:run"@ {
        assert(t[12] == 't' && t[17] == 'c');
        assert(t.skip(25) =~= a);
    } else if key == "task:isolation"@ {
        assert(t[12] == 'i' && t[13] == 's');
        assert(t.skip(27) =~= a);
    } else if starts_with(key, "task:name:"@) {
        assert(t[12] == 't' && t[17] == 'i');
    } else {
        let m = key.len() as int;
        assert(t == "cache miss: "@ + key + " "@ + a);
        assert forall|i: int| 0 <= i < m implies #[trigger] key[i] == u[12 + i] by {
            assert(t[12 + i] == key[i]);
        }
        assert(t[12 + m] == ' ');
        assert(u[12 + m] == ' ');
        if m == 12 {
            assert(key =~= "task command"@);
        } else if m < 12 {
            assert(m == 4);
            assert(t[13 + m] == a[0] && t[14 + m] == a[1]);
        } else {
            assert(u[12 + m] == b[m - 13]);
        }
    }
    assert(u.skip(25) =~= b);
}

/// What is told of the command agrees with the manifests. No key of theirs is itself
/// written like such a text.
pub proof fn law_command_is_told_as_it_changed(
    previous: Map<Seq<char>, Seq<char>>,
    current: Map<Seq<char>, Seq<char>>,
    reasons: Seq<Seq<char>>,
)
    requires
        miss_reasons(false, false, Some(previous), current, reasons),
        !in_either(previous, current, "task command"@),
    ensures
        reasons.contains("cache miss: task command added"@) <==> {
            &&& !previous.contains_key("task:run"@)
            &&& current.contains_key("task:run"@)
        },
        reasons.contains("cache miss: task command removed"@) <==> {
            &&& previous.contains_key("task:run"@)
            &&& !current.contains_key("task:run"@)
        },
        reasons.contains("cache miss: task command changed"@) <==> {
            &&& previous.contains_key("task:run"@)
            &&& current.contains_key("task:run"@)
            &&& previous["task:run"@] != current["task:run"@]
        },
{
    lemma_words();
    reveal_strlit("cache miss: task command ");
    reveal_strlit("cache miss: task command added");
    reveal_strlit("cache miss: task command removed");
    reveal_strlit("cache miss: task command changed");
    let key = "task:run"@;
    assert forall|b: Seq<char>| is_action(b) implies (reasons.contains(
        #[trigger] ("cache miss: task command "@ + b),
    ) <==> change_of(previous, current, key) == Some(b)) by {
        let text = "cache miss: task command "@ + b;
        assert forall|a: Seq<char>, k: Seq<char>|
            is_action(a) && in_either(previous, current, k) && #[trigger] change_text(a, k)
                == text implies a == b && k == key by {
            lemma_command_text_is_its_own(a, k, b);
        }
        lemma_command_text(b);
        lemma_told_once(previous, current, reasons, key, b, text);
    }
    assert("cache miss: task command added"@ =~= "cache miss: task command "@ + "added"@);
    assert("cache miss: task command removed"@ =~= "cache miss: task command "@ + "removed"@);
    assert("cache miss: task command changed"@ =~= "cache miss: task command "@ + "changed"@);
    assert("added"@[0] != "removed"@[0] && "added"@[0] != "changed"@[0] && "removed"@[0]
        != "changed"@[0]);
}

/// The text that is told of the isolation mode, and its key.
proof fn lemma_isolation_text(action: Seq<char>)
    requires
        is_action(action),
    ensures
        change_text(action, "task:isolation"@) == "cache miss: isolation mode "@ + action,
        "cache miss: isolation mode "@ + action != "cache miss: fingerprint changed"@,
{
    lemma_words();
    reveal_strlit("cache miss: input ");
    reveal_strlit("cache miss: env ");
    reveal_strlit("cache miss: input pattern ");
    reveal_strlit("cache miss: output contract ");
    reveal_strlit("cache miss: task command ");
    reveal_strlit("cache miss: isolation mode ");
    reveal_strlit("cache miss: task identity ");
    reveal_strlit("input:");
    reveal_strlit("env:");
    reveal_strlit("input_pattern:");
    reveal_strlit("output:");
    reveal_strlit("task:run");
    reveal_strlit("task:isolation");
    reveal_strlit("task:name:");
    reveal_strlit("cache miss: fingerprint changed");
    let key = "task:isolation"@;
    let text = "cache miss: isolation mode "@ + action;
    assert(text[12] == "cache miss: isolation mode "@[12]);
    assert("cache miss: fingerprint changed"@[12] == 'f');
    if starts_with(key, "input:"@) {
        assert(key.subrange(0, 6)[0] == key[0]);
    }
    if starts_with(key, "env:"@) {
        assert(key.subrange(0, 4)[0] == key[0]);
    }
    if starts_with(key, "output:"@) {
        assert(key.subrange(0, 7)[0] == key[0]);
    }
    if starts_with(key, "input_pattern:"@) {
        assert(key.subrange(0, 14)[0] == key[0]);
    }
    assert("task:run"@[5] != "task:isolation"@[5]);
}

/// No other key gives that text.
#[verifier::spinoff_prover]
proof fn lemma_isolation_text_is_its_own(a: Seq<char>, key: Seq<char>, b: Seq<char>)
    requires
        is_action(a),
        is_action(b),
        key != "isolation mode"@,
        change_text(a, key) == "cache miss: isolation mode "@ + b,
    ensures
        a == b,
        key == "task:isolation"@,
{
    lemma_words();
    reveal_strlit("cache miss: input ");
    reveal_strlit("cache miss: env ");
    reveal_strlit("cache miss: input pattern ");
    reveal_strlit("cache miss: output contract ");
    reveal_strlit("cache miss: task command ");
    reveal_strlit("cache miss: isolation mode ");
    reveal_strlit("cache miss: task identity ");
    reveal_strlit("input:");
    reveal_strlit("env:");
    reveal_strlit("input_pattern:");
    reveal_strlit("output:");
    reveal_strlit("task:run");
    reveal_strlit("task:isolation");
    reveal_strlit("task:name:");
    reveal_strlit("isolation mode");
    let t = change_text(a, key);
    let u = "cache miss: isolation mode "@ + b;
    assert(t[12] == u[12] && t[13] == u[13] && t[17] == u[17] && t[18] == u[18]);
    assert(u[27] == b[0]);
    if starts_with(key, "input:"@) {
        assert(t[12] == 'i' && t[13] == 'n');
    } else if starts_with(key, "env:"@) {
        assert(t[12] == 'e');
    } else if starts_with(key, "input_pattern:"@) {
        assert(t[12] == 'i' && t[13] == 'n');
    } else if starts_with(key, "output:"@) {
        assert(t[12] == 'o');
    } else if key == "task:run"@ {
        assert(t[12] == 't' && t[17] == 'c');
        assert(t.skip(25) =~= a);
    } else if key == "task:isolation"@ {
        assert(t[12] == 'i' && t[13] == 's');
        assert(t.skip(27) =~= a);
    } else if starts_with(key, "task:name:"@) {
        assert(t[12] == 't' && t[17] == 'i');
    } else {
        let m = key.len() as int;
        assert(t == "cache miss: "@ + key + " "@ + a);
        assert forall|i: int| 0 <= i < m implies #[trigger] key[i] == u[12 + i] by {
            assert(t[12 + i] == key[i]);
        }
        assert(t[12 + m] == ' ');
        assert(u[12 + m] == ' ');
        if m == 14 {
            assert(key =~= "isolation mode"@);
        } else if m < 14 {
            assert(m == 9);
            assert(t[13 + m] == a[0] && t[14 + m] == a[1]);
        } else {
            assert(u[12 + m] == b[m - 15]);
        }
    }
    assert(u.skip(27) =~= b);
}

/// What is told of the isolation mode agrees with the manifests. No key of theirs is itself
/// written like such a text.
pub proof fn law_isolation_is_told_as_it_changed(
    previous: Map<Seq<char>, Seq<char>>,
    current: Map<Seq<char>, Seq<char>>,
    reasons: Seq<Seq<char>>,
)
    requires
        miss_reasons(false, false, Some(previous), current, reasons),
        !in_either(previous, current, "isolation mode"@),
    ensures
        reasons.contains("cache miss: isolation mode added"@) <==> {
            &&& !previous.contains_key("task:isolation"@)
            &&& current.contains_key("task:isolation"@)
        },
        reasons.contains("cache miss: isolation mode removed"@) <==> {
            &&& previous.contains_key("task:isolation"@)
            &&& !current.contains_key("task:isolation"@)
        },
        reasons.contains("cache miss: isolation mode changed"@) <==> {
            &&& previous.contains_key("task:isolation"@)
            &&& current.contains_key("task:isolation"@)
            &&& previous["task:isolation"@] != current["task:isolation"@]
        },
{
    lemma_words();
    reveal_strlit("cache miss: isolation mode ");
    reveal_strlit("cache miss: isolation mode added");
    reveal_strlit("cache miss: isolation mode removed");
    reveal_strlit("cache miss: isolation mode changed");
    let key = "task:isolation"@;
    assert forall|b: Seq<char>| is_action(b) implies (reasons.contains(
        #[trigger] ("cache miss: isolation mode "@ + b),
    ) <==> change_of(previous, current, key) == Some(b)) by {
        let text = "cache miss: isolation mode "@ + b;
        assert forall|a: Seq<char>, k: Seq<char>|
            is_action(a) && in_either(previous, current, k) && #[trigger] change_text(a, k)
                == text implies a == b && k == key by {
            lemma_isolation_text_is_its_own(a, k, b);
        }
        lemma_isolation_text(b);
        lemma_told_once(previous, current, reasons, key, b, text);
    }
    assert("cache miss: isolation mode added"@ =~= "cache miss: isolation mode "@ + "added"@);
    assert("cache miss: isolation mode removed"@ =~= "cache miss: isolation mode "@ + "removed"@);
    assert("cache miss: isolation mode changed"@ =~= "cache miss: isolation mode "@ + "changed"@);
    assert("added"@[0] != "removed"@[0] && "added"@[0] != "changed"@[0] && "removed"@[0]
        != "changed"@[0]);
}

/// A changed key is told of with its own name when it is of no kind that has a
/// text of its own, and as a change of the task's identity when it names the task.
pub proof fn law_other_keys_are_told(
    previous: Map<Seq<char>, Seq<char>>,
    current: Map<Seq<char>, Seq<char>>,
    reasons: Seq<Seq<char>>,
    key: Seq<char>,
)
    requires
        miss_reasons(false, false, Some(previous), current, reasons),
        previous.contains_key(key) && current.contains_key(key) ==> previous[key] != current[key],
        in_either(previous, current, key),
    ensures
        ({
            let action = if !previous.contains_key(key) {
                "added"@
            } else if !current.contains_key(key) {
                "removed"@
            } else {
                "changed"@
            };
            &&& starts_with(key, "task:name:"@) ==> reasons.contains(
                "cache miss: task identity "@ + action,
            )
            &&& !starts_with(key, "input:"@) && !starts_with(key, "env:"@) && !starts_with(
                key,
                "input_pattern:"@,
            ) && !starts_with(key, "output:"@) && key != "task:run"@ && key != "task:isolation"@
                && !starts_with(key, "task:name:"@) ==> reasons.contains(
                "cache miss: "@ + key + " "@ + action,
            )
        }),
{
    lemma_words();
    reveal_strlit("input:");
    reveal_strlit("env:");
    reveal_strlit("input_pattern:");
    reveal_strlit("output:");
    reveal_strlit("task:run");
    reveal_strlit("task:isolation");
    reveal_strlit("task:name:");
    let action = change_of(previous, current, key).unwrap();
    let text = change_text(action, key);
    if explains(Seq::empty(), previous, current) && !explains(reasons, previous, current) {
        law_equal_manifests_explain_nothing(previous, current);
    }
    assert(explains(reasons, previous, current) || explains(Seq::empty(), previous, current));
    if !explains(reasons, previous, current) {
        assert(previous == current);
        assert(false);
    }
    let keys = choose|keys: Seq<Seq<char>>| #[trigger]
        are_all_keys(keys, previous, current) && reasons == delta(keys, previous, current);
    law_every_change_is_told(keys, previous, current, text);
    assert(keys.contains(key));
    let i = choose|i: int| 0 <= i < keys.len() && keys[i] == key;
    assert(told_of(previous, current, keys[i], text));
    assert(reasons.contains(text));
    if starts_with(key, "task:name:"@) {
        assert(key.subrange(0, 10)[0] == key[0]);
        assert(key.subrange(0, 10)[5] == key[5]);
        if starts_with(key, "input:"@) {
            assert(key.subrange(0, 6)[0] == key[0]);
        }
        if starts_with(key, "env:"@) {
            assert(key.subrange(0, 4)[0] == key[0]);
        }
        if starts_with(key, "output:"@) {
            assert(key.subrange(0, 7)[0] == key[0]);
        }
        if starts_with(key, "input_pattern:"@) {
            assert(key.subrange(0, 14)[0] == key[0]);
        }
    }
}

/// A task that was not cached is always explained: by what bypassed the cache, by
/// its first run, by each change since it ran last, or, where nothing changed, by
/// its fingerprint.
pub proof fn law_miss_is_explained(
    force: bool,
    no_cache: bool,
    previous: Option<Map<Seq<char>, Seq<char>>>,
    current: Map<Seq<char>, Seq<char>>,
    reasons: Seq<Seq<char>>,
)
    requires
        miss_reasons(force, no_cache, previous, current, reasons),
    ensures
        reasons.len() > 0,
        force ==> reasons =~= seq!["cache bypass: --force supplied"@],
        !force && no_cache ==> reasons =~= seq!["cache bypass: --no-cache supplied"@],
        !force && !no_cache && previous is None ==> reasons
            =~= seq!["cache miss: no prior execution record"@],
        !force && !no_cache && previous == Some(current) ==> reasons
            =~= seq!["cache miss: fingerprint changed"@],
        !force && !no_cache && previous is Some && previous != Some(current) ==> explains(
            reasons,
            previous->0,
            current,
        ),
{
    if !force && !no_cache && previous is Some {
        let p = previous->0;
        law_equal_manifests_explain_nothing(p, current);
    }
}

/// The keys whose entries differ.
spec fn differing(
    keys: Seq<Seq<char>>,
    previous: Map<Seq<char>, Seq<char>>,
    current: Map<Seq<char>, Seq<char>>,
) -> Seq<Seq<char>> {
    keys.filter(
        |k: Seq<char>|
            previous.contains_key(k) != current.contains_key(k) || (previous.contains_key(k)
                && previous[k] != current[k]),
    )
}

proof fn lemma_one_text_per_key(
    keys: Seq<Seq<char>>,
    previous: Map<Seq<char>, Seq<char>>,
    current: Map<Seq<char>, Seq<char>>,
)
    requires
        forall|i: int, j: int|
            0 <= i < j < keys.len() ==> before(#[trigger] keys[i], #[trigger] keys[j]),
    ensures
        ({
            let all = delta(keys, previous, current);
            let changed = differing(keys, previous, current);
            &&& all.len() == changed.len()
            &&& forall|i: int|
                0 <= i < all.len() ==> told_of(previous, current, changed[i], #[trigger] all[i])
            &&& forall|i: int| 0 <= i < changed.len() ==> keys.contains(#[trigger] changed[i])
            &&& forall|i: int, j: int|
                0 <= i < j < changed.len() ==> before(#[trigger] changed[i], #[trigger] changed[j])
        }),
    decreases keys.len(),
{
    reveal(Seq::filter);
    if keys.len() > 0 {
        let front = keys.drop_last();
        lemma_one_text_per_key(front, previous, current);
        let was = differing(front, previous, current);
        let now = differing(keys, previous, current);
        assert forall|i: int| 0 <= i < now.len() implies keys.contains(#[trigger] now[i]) by {
            if i < was.len() {
                assert(front.contains(was[i]));
                let j = choose|j: int| 0 <= j < front.len() && front[j] == was[i];
                assert(keys[j] == now[i]);
            } else {
                assert(keys[keys.len() - 1] == now[i]);
            }
        }
        assert forall|i: int, j: int| 0 <= i < j < now.len() implies before(
            #[trigger] now[i],
            #[trigger] now[j],
        ) by {
            if j < was.len() {
                assert(before(was[i], was[j]));
            } else {
                assert(front.contains(was[i]));
                let k = choose|k: int| 0 <= k < front.len() && front[k] == was[i];
                assert(before(keys[k], keys[keys.len() - 1]));
            }
        }
    }
}

/// Each reason stands for a key of its own, and the reasons come in ascending order
/// of these keys.
pub proof fn law_reasons_come_in_order_of_their_keys(
    previous: Map<Seq<char>, Seq<char>>,
    current: Map<Seq<char>, Seq<char>>,
    reasons: Seq<Seq<char>>,
) -> (keys: Seq<Seq<char>>)
    requires
        explains(reasons, previous, current),
    ensures
        keys.len() == reasons.len(),
        forall|i: int, j: int|
            0 <= i < j < keys.len() ==> before(#[trigger] keys[i], #[trigger] keys[j]),
        forall|i: int|
            0 <= i < keys.len() ==> {
                let k = #[trigger] keys[i];
                &&& in_either(previous, current, k)
                &&& previous.contains_key(k) && current.contains_key(k) ==> previous[k] != current[k]
                &&& reasons[i] == change_text(
                    if !previous.contains_key(k) {
                        "added"@
                    } else if !current.contains_key(k) {
                        "removed"@
                    } else {
                        "changed"@
                    },
                    k,
                )
            },
{
    let all = choose|keys: Seq<Seq<char>>| #[trigger]
        are_all_keys(keys, previous, current) && reasons == delta(keys, previous, current);
    lemma_one_text_per_key(all, previous, current);
    let keys = differing(all, previous, current);
    assert forall|i: int| 0 <= i < keys.len() implies in_either(previous, current, #[trigger] keys[i])
        && told_of(previous, current, keys[i], reasons[i]) by {
        assert(all.contains(keys[i]));
        assert(told_of(previous, current, keys[i], delta(all, previous, current)[i]));
    }
    keys
}

/// What is said of a change names the kind of entry, what was done to it, and the entry: of
/// an input, a variable, a pattern or an output its name, of the command and the isolation
/// nothing more.
pub proof fn law_change_is_described(action: &str, key: &str, name: Seq<char>, r: String)
    requires
        call_ensures(describe_manifest_change, (action, key), r),
    ensures
        key@ == "input:"@ + name ==> r@ == "cache miss: input "@ + action@ + ": "@ + name,
        key@ == "env:"@ + name ==> r@ == "cache miss: env "@ + action@ + ": "@ + name,
        key@ == "input_pattern:"@ + name ==> r@ == "cache miss: input pattern "@ + action@ + ": "@ + name,
        key@ == "output:"@ + name ==> r@ == "cache miss: output contract "@ + action@ + ": "@ + name,
        key@ == "task:run"@ ==> r@ == "cache miss: task command "@ + action@,
        key@ == "task:isolation"@ ==> r@ == "cache miss: isolation mode "@ + action@,
{
    reveal_strlit("input:");
    reveal_strlit("env:");
    reveal_strlit("input_pattern:");
    reveal_strlit("output:");
    reveal_strlit("task:run");
    reveal_strlit("task:isolation");
    let k = key@;
    if k == "input:"@ + name {
        assert(k.subrange(0, 6) =~= "input:"@);
        assert(k.skip(6) =~= name);
    }
    if k == "env:"@ + name {
        assert(k.subrange(0, 4) =~= "env:"@);
        assert(k.skip(4) =~= name);
        assert(k[0] == 'e');
        lemma_other_start(k, "input:"@);
    }
    if k == "input_pattern:"@ + name {
        assert(k.subrange(0, 14) =~= "input_pattern:"@);
        assert(k.skip(14) =~= name);
        assert(k[5] == '_' && k[0] == 'i');
        if starts_with(k, "input:"@) {
            assert(k.subrange(0, 6)[5] == k[5]);
        }
        lemma_other_start(k, "env:"@);
    }
    if k == "output:"@ + name {
        assert(k.subrange(0, 7) =~= "output:"@);
        assert(k.skip(7) =~= name);
        assert(k[0] == 'o');
        lemma_other_start(k, "input:"@);
        lemma_other_start(k, "env:"@);
        lemma_other_start(k, "input_pattern:"@);
    }
    if k == "task:run"@ || k == "task:isolation"@ {
        assert(k[0] == 't');
        lemma_other_start(k, "input:"@);
        lemma_other_start(k, "env:"@);
        lemma_other_start(k, "input_pattern:"@);
        lemma_other_start(k, "output:"@);
        if k == "task:isolation"@ {
            assert(k[5] == 'i');
            assert("task:run"@[5] == 'r');
        }
    }
}

/// A text does not start with what has another first character.
proof fn lemma_other_start(k: Seq<char>, p: Seq<char>)
    requires
        k.len() > 0,
        p.len() > 0,
        k[0] != p[0],
    ensures
        !starts_with(k, p),
{
    if starts_with(k, p) {
        assert(k.subrange(0, p.len() as int)[0] == k[0]);
    }
}

/// The reasons that are handed out are the changes between the manifests, and where the cache
/// was bypassed, why; they tell of an input what was done to it.
pub proof fn law_reasons_handed_out(
    force: bool,
    no_cache: bool,
    previous: TextMap<String>,
    current: TextMap<String>,
    delta: Vec<String>,
    first: Vec<String>,
    again: Vec<String>,
)
    requires
        previous.wf(),
        current.wf(),
        call_ensures(explain_manifest_delta, (&previous, &current), delta),
        call_ensures(explain_cache_miss, (force, no_cache, None, &current), first),
        call_ensures(explain_cache_miss, (force, no_cache, Some(&previous), &current), again),
    ensures
        explains(texts(delta@), text_values(previous@), text_values(current@)),
        miss_reasons(force, no_cache, None, text_values(current@), texts(first@)),
        miss_reasons(
            force,
            no_cache,
            Some(text_values(previous@)),
            text_values(current@),
            texts(again@),
        ),
        first@.len() > 0 && again@.len() > 0,
        force ==> first@[0]@ == "cache bypass: --force supplied"@ && again@[0]@
            == "cache bypass: --force supplied"@,
        !force && no_cache ==> first@[0]@ == "cache bypass: --no-cache supplied"@ && again@[0]@
            == "cache bypass: --no-cache supplied"@,
        !force && !no_cache ==> first@[0]@ == "cache miss: no prior execution record"@,
        text_values(previous@) == text_values(current@) ==> delta@.len() == 0,
        text_values(previous@) != text_values(current@) ==> delta@.len() > 0,
{
    let (p, c) = (text_values(previous@), text_values(current@));
    law_miss_is_explained(force, no_cache, None, c, texts(first@));
    law_miss_is_explained(force, no_cache, Some(p), c, texts(again@));
    assert(texts(first@).len() == first@.len() && texts(first@)[0] == first@[0]@);
    assert(texts(again@).len() == again@.len() && texts(again@)[0] == again@[0]@);
    assert(texts(delta@).len() == delta@.len());
    law_equal_manifests_explain_nothing(p, c);
    if delta@.len() == 0 {
        assert(texts(delta@) =~= Seq::<Seq<char>>::empty());
        assert(explains(Seq::empty(), p, c));
    }
}

} // verus!
