//! What is printed.

use vstd::prelude::*;
use vstd::utf8::{char_is_scalar, encode_scalar, encode_utf8};
use crate::executor::RunSummary;
use crate::model::{BroskiFile, IsolationMode, TaskSpec};
use crate::number::{dec, dec_string};
use crate::paths::{join_paths, joined_path};
use crate::store::{ExecutionRecord, PruneReport};
use crate::text::{
    contains, from_chars, has_part, join, joined, opt_text, pad_left, pad_right, padded_left,
    padded_right, texts, to_chars, trim, trimmed,
};
use crate::text_map::TextMap;
use crate::time::{
    format_duration_ms, format_unix_ts, recorded_duration_text, stamp_text, Duration,
};

verus! {

/// Where the cache of a workspace stands.
pub fn cache_root(workspace: &str) -> (r: String)
    ensures
        r@ == joined_path(workspace@, ".broski/cache"@),
{
    join_paths(workspace, ".broski/cache")
}

/// How many reasons are told of one task.
pub const REASONS_SHOWN: usize = 10;

/// `head` and the names, with commas between them; nothing when there are no
/// names.
pub open spec fn listed(head: Seq<char>, names: Seq<Seq<char>>) -> Seq<Seq<char>> {
    if names.len() == 0 {
        Seq::empty()
    } else {
        seq![head + join(names, ", "@)]
    }
}

/// Appends `head` and the names, unless there are none.
fn push_listed(lines: &mut Vec<String>, head: &str, names: &Vec<String>)
    ensures
        texts(final(lines)@) == texts(old(lines)@) + listed(head@, texts(names@)),
{
    broadcast use crate::text::lemma_texts_push;
    let ghost before = texts(lines@);
    if names.len() > 0 {
        let mut line = head.to_owned();
        let all = joined(names, ", ");
        line.append(all.as_str());
        lines.push(line);
        assert(texts(lines@) =~= before + listed(head@, texts(names@)));
    } else {
        assert(texts(lines@) =~= before + listed(head@, texts(names@)));
    }
}

/// The lines for the first `n` reasons.
pub open spec fn reason_lines(reasons: Seq<Seq<char>>, n: int) -> Seq<Seq<char>> {
    Seq::new(n as nat, |i: int| "- "@ + reasons[i])
}

/// What is told of one task: its name, its first reasons, and how many more
/// there are.
pub open spec fn task_lines(name: Seq<char>, reasons: Seq<Seq<char>>) -> Seq<Seq<char>> {
    let shown: int = if reasons.len() < REASONS_SHOWN {
        reasons.len() as int
    } else {
        REASONS_SHOWN as int
    };
    let more: Seq<Seq<char>> = if reasons.len() > REASONS_SHOWN {
        seq!["- +"@ + dec((reasons.len() - REASONS_SHOWN) as nat) + " more changes"@]
    } else {
        Seq::empty()
    };
    seq!["explain "@ + name + ":"@] + reason_lines(reasons, shown) + more
}

/// What is told of the tasks, in the order of the keys.
pub open spec fn explained(keys: Seq<Seq<char>>, reasons: Map<Seq<char>, Vec<String>>) -> Seq<Seq<char>>
    decreases keys.len(),
{
    if keys.len() == 0 {
        Seq::empty()
    } else {
        explained(keys.drop_last(), reasons) + task_lines(keys.last(), texts(reasons[keys.last()]@))
    }
}

/// Appends what is told of one task.
fn push_task(lines: &mut Vec<String>, name: &str, reasons: &Vec<String>)
    ensures
        texts(final(lines)@) == texts(old(lines)@) + task_lines(name@, texts(reasons@)),
{
    let ghost start = texts(lines@);
    let mut head = "explain ".to_owned();
    head.append(name);
    head.append(":");
    let ghost first = seq![head@];
    lines.push(head);
    assert(texts(lines@) =~= start + first);
    let shown: usize = if reasons.len() < REASONS_SHOWN {
        reasons.len()
    } else {
        REASONS_SHOWN
    };
    let mut i: usize = 0;
    assert(start + first + reason_lines(texts(reasons@), 0) =~= start + first);
    while i < shown
        invariant
            i <= shown <= reasons.len(),
            texts(lines@) == start + first + reason_lines(texts(reasons@), i as int),
        decreases shown - i,
    {
        let mut line = "- ".to_owned();
        line.append(reasons[i].as_str());
        let ghost before = lines@;
        lines.push(line);
        assert(texts(lines@) =~= texts(before).push(line@));
        assert(reason_lines(texts(reasons@), i + 1) =~= reason_lines(
            texts(reasons@),
            i as int,
        ).push(line@));
        assert(texts(lines@) =~= start + first + reason_lines(texts(reasons@), i + 1));
        i += 1;
    }
    let ghost so_far = texts(lines@);
    if reasons.len() > REASONS_SHOWN {
        let mut line = "- +".to_owned();
        let n = dec_string((reasons.len() - REASONS_SHOWN) as u128);
        line.append(n.as_str());
        line.append(" more changes");
        let ghost before = lines@;
        lines.push(line);
        assert(texts(lines@) =~= texts(before).push(line@));
    }
    assert(texts(lines@) =~= start + task_lines(name@, texts(reasons@)));
}

/// What is printed after a run: what was taken from the cache, executed and only
/// told of; with `explain`, why tasks were not cached.
pub open spec fn summary_text(summary: RunSummary, explain: bool) -> Seq<Seq<char>> {
    listed("cache hits: "@, texts(summary.cache_hits@)) + listed(
        "executed: "@,
        texts(summary.executed@),
    ) + listed("dry-run: "@, texts(summary.dry_run@)) + (if explain {
        explained(summary.cache_miss_reasons.keys(), summary.cache_miss_reasons@)
    } else {
        Seq::empty()
    })
}

/// What is printed after a run.
pub fn emit_run_summary(summary: &RunSummary, explain: bool) -> (r: Vec<String>)
    requires
        summary.wf(),
    ensures
        texts(r@) == summary_text(*summary, explain),
{
    let mut lines: Vec<String> = Vec::new();
    assert(texts(lines@) =~= Seq::<Seq<char>>::empty());
    push_listed(&mut lines, "cache hits: ", &summary.cache_hits);
    push_listed(&mut lines, "executed: ", &summary.executed);
    push_listed(&mut lines, "dry-run: ", &summary.dry_run);
    let ghost head = texts(lines@);
    assert(head =~= listed("cache hits: "@, texts(summary.cache_hits@)) + listed(
        "executed: "@,
        texts(summary.executed@),
    ) + listed("dry-run: "@, texts(summary.dry_run@)));
    if explain {
        let reasons = &summary.cache_miss_reasons;
        let n: usize = reasons.len();
        let ghost keys = reasons.keys();
        let mut i: usize = 0;
        assert(head + explained(keys.take(0), reasons@) =~= head);
        while i < n
            invariant
                reasons.wf(),
                keys == reasons.keys(),
                n == keys.len(),
                i <= n,
                texts(lines@) == head + explained(keys.take(i as int), reasons@),
            decreases n - i,
        {
            assert(keys.take(i + 1).drop_last() =~= keys.take(i as int));
            push_task(&mut lines, reasons.key_at(i), reasons.value_at(i));
            assert(texts(lines@) =~= head + explained(keys.take(i + 1), reasons@));
            i += 1;
        }
        assert(keys.take(n as int) =~= keys);
    } else {
        assert(head =~= summary_text(*summary, explain));
    }
    lines
}

/// What is printed after a run on the dashboard: what was taken from the cache
/// and executed.
pub fn brief_summary(summary: &RunSummary) -> (r: Vec<String>)
    ensures
        texts(r@) == listed("cache hits: "@, texts(summary.cache_hits@)) + listed(
            "executed: "@,
            texts(summary.executed@),
        ),
{
    let mut lines: Vec<String> = Vec::new();
    assert(texts(lines@) =~= Seq::<Seq<char>>::empty());
    push_listed(&mut lines, "cache hits: ", &summary.cache_hits);
    push_listed(&mut lines, "executed: ", &summary.executed);
    assert(texts(lines@) =~= listed("cache hits: "@, texts(summary.cache_hits@)) + listed(
        "executed: "@,
        texts(summary.executed@),
    ));
    lines
}

/// How many bytes the text takes up.
pub open spec fn byte_len(s: Seq<char>) -> nat {
    encode_utf8(s).len()
}

/// A character more takes up the bytes of that character more.
proof fn lemma_byte_len_push(s: Seq<char>, c: char)
    ensures
        encode_utf8(s.push(c)) == encode_utf8(s) + encode_scalar(c as u32),
    decreases s.len(),
{
    let t = s.push(c);
    if s.len() == 0 {
        assert(t.drop_first() =~= s);
        assert(encode_utf8(t) =~= encode_utf8(s) + encode_scalar(c as u32));
    } else {
        assert(t.drop_first() =~= s.drop_first().push(c));
        lemma_byte_len_push(s.drop_first(), c);
        assert(encode_utf8(t) =~= encode_utf8(s) + encode_scalar(c as u32));
    }
}

proof fn lemma_byte_len_grows(s: Seq<char>, m: int, n: int)
    requires
        0 <= m <= n <= s.len(),
    ensures
        byte_len(s.take(m)) + (n - m) <= byte_len(s.take(n)),
    decreases n,
{
    if m < n {
        assert(s.take(n) =~= s.take(n - 1).push(s[n - 1]));
        lemma_byte_len_push(s.take(n - 1), s[n - 1]);
        lemma_byte_len_grows(s, m, n - 1);
    }
}

/// The first twelve bytes of a fingerprint and an ellipsis; all of it when it is
/// no longer than that. A longer one must have a character end there.
pub fn short_fingerprint(fp: &str) -> (r: String)
    requires
        byte_len(fp@) <= 12 || exists|k: int|
            0 <= k <= fp@.len() && byte_len(#[trigger] fp@.take(k)) == 12,
    ensures
        byte_len(fp@) <= 12 ==> r@ == fp@,
        byte_len(fp@) > 12 ==> exists|k: int|
            0 <= k <= fp@.len() && byte_len(#[trigger] fp@.take(k)) == 12 && r@ == fp@.take(k) + "…"@,
{
    let v = to_chars(fp);
    let mut i: usize = 0;
    let mut bytes: usize = 0;
    while i < v.len() && bytes < 12
        invariant
            v@ == fp@,
            i <= v.len(),
            bytes == byte_len(fp@.take(i as int)),
            bytes <= 15,
            i > 0 ==> byte_len(fp@.take(i - 1)) < 12,
        decreases v.len() - i,
    {
        let c = v[i];
        assert(fp@.take(i + 1) =~= fp@.take(i as int).push(c));
        proof {
            lemma_byte_len_push(fp@.take(i as int), c);
        }
        let code: u32 = c as u32;
        let wide: usize = if code <= 0x7f {
            1
        } else if code <= 0x7ff {
            2
        } else if code <= 0xffff {
            3
        } else {
            4
        };
        proof {
            char_is_scalar(c);
        }
        assert(encode_scalar(code).len() == wide);
        bytes = bytes + wide;
        i += 1;
    }
    assert(fp@.take(fp@.len() as int) =~= fp@);
    if i == v.len() && bytes <= 12 {
        return fp.to_owned();
    }
    proof {
        lemma_byte_len_grows(fp@, i as int, fp@.len() as int);
        let k = choose|k: int| 0 <= k <= fp@.len() && byte_len(#[trigger] fp@.take(k)) == 12;
        if k < i {
            lemma_byte_len_grows(fp@, k, i - 1);
        } else if k > i {
            lemma_byte_len_grows(fp@, i as int, k);
        }
    }
    assert(v@.subrange(0, i as int) =~= fp@.take(i as int));
    let mut r = from_chars(&v, 0, i);
    r.append("…");
    r
}

/// The line of a task in the list: its name, and its description if it has one.
pub open spec fn list_line(name: Seq<char>, spec: TaskSpec) -> Seq<char> {
    match spec.description {
        Some(text) => name + "\t- "@ + text@,
        None => name,
    }
}

/// The lines of the tasks that are not private.
pub open spec fn list_lines(keys: Seq<Seq<char>>, tasks: Map<Seq<char>, TaskSpec>) -> Seq<Seq<char>>
    decreases keys.len(),
{
    if keys.len() == 0 {
        Seq::empty()
    } else {
        let front = list_lines(keys.drop_last(), tasks);
        if tasks[keys.last()].private {
            front
        } else {
            front.push(list_line(keys.last(), tasks[keys.last()]))
        }
    }
}

/// The lines of the aliases, but for those of private tasks.
pub open spec fn alias_lines(
    keys: Seq<Seq<char>>,
    aliases: Map<Seq<char>, String>,
    tasks: Map<Seq<char>, TaskSpec>,
) -> Seq<Seq<char>>
    decreases keys.len(),
{
    if keys.len() == 0 {
        Seq::empty()
    } else {
        let front = alias_lines(keys.drop_last(), aliases, tasks);
        let target = aliases[keys.last()]@;
        if tasks.contains_key(target) && tasks[target].private {
            front
        } else {
            front.push("alias "@ + keys.last() + " -> "@ + target)
        }
    }
}

/// The list of the tasks and their aliases. What is private is left out.
pub fn task_list(config: &BroskiFile) -> (r: Vec<String>)
    requires
        config.wf(),
    ensures
        texts(r@) == list_lines(config.task.keys(), config.task@) + alias_lines(
            config.alias.keys(),
            config.alias@,
            config.task@,
        ),
{
    let mut lines: Vec<String> = Vec::new();
    let n: usize = config.task.len();
    let ghost keys = config.task.keys();
    let mut i: usize = 0;
    assert(texts(lines@) =~= list_lines(keys.take(0), config.task@));
    while i < n
        invariant
            config.wf(),
            keys == config.task.keys(),
            n == keys.len(),
            i <= n,
            texts(lines@) == list_lines(keys.take(i as int), config.task@),
        decreases n - i,
    {
        broadcast use crate::text::lemma_texts_push;
        assert(keys.take(i + 1).drop_last() =~= keys.take(i as int));
        let spec = config.task.value_at(i);
        if !spec.private {
            let mut line = config.task.key_at(i).to_owned();
            if let Some(text) = &spec.description {
                line.append("\t- ");
                line.append(text.as_str());
            }
            lines.push(line);
        }
        i += 1;
    }
    assert(keys.take(n as int) =~= keys);
    let ghost head = texts(lines@);
    let m: usize = config.alias.len();
    let ghost names = config.alias.keys();
    let mut j: usize = 0;
    assert(head + alias_lines(names.take(0), config.alias@, config.task@) =~= head);
    while j < m
        invariant
            config.wf(),
            names == config.alias.keys(),
            m == names.len(),
            j <= m,
            texts(lines@) == head + alias_lines(names.take(j as int), config.alias@, config.task@),
        decreases m - j,
    {
        broadcast use crate::text::lemma_texts_push;
        assert(names.take(j + 1).drop_last() =~= names.take(j as int));
        let target = config.alias.value_at(j).as_str();
        let hidden = match config.task.get(target) {
            Some(spec) => spec.private,
            None => false,
        };
        if !hidden {
            let mut line = "alias ".to_owned();
            line.append(config.alias.key_at(j));
            line.append(" -> ");
            line.append(target);
            lines.push(line);
        }
        assert(texts(lines@) =~= head + alias_lines(names.take(j + 1), config.alias@, config.task@));
        j += 1;
    }
    assert(names.take(m as int) =~= names);
    lines
}

/// The line of an arrow from a dependency to the task that needs it.
pub open spec fn edge_line(dep: Seq<char>, task: Seq<char>) -> Seq<char> {
    "  \""@ + dep + "\" -> \""@ + task + "\";"@
}

/// The lines of a task in a drawing of the graph: the task, and an arrow from
/// each of its dependencies.
pub open spec fn node_lines(task: Seq<char>, deps: Seq<Seq<char>>) -> Seq<Seq<char>> {
    seq!["  \""@ + task + "\";"@] + deps.map_values(|dep: Seq<char>| edge_line(dep, task))
}

/// The lines of the tasks, one task after the other.
pub open spec fn nodes_lines(names: Seq<Seq<char>>, tasks: Map<Seq<char>, TaskSpec>) -> Seq<Seq<char>>
    decreases names.len(),
{
    if names.len() == 0 {
        Seq::empty()
    } else {
        nodes_lines(names.drop_last(), tasks) + node_lines(
            names.last(),
            if tasks.contains_key(names.last()) {
                texts(tasks[names.last()].deps@)
            } else {
                Seq::empty()
            },
        )
    }
}

/// Puts the lines of a task behind the others.
fn push_node(lines: &mut Vec<String>, task: &str, deps: &Vec<String>)
    ensures
        texts(final(lines)@) == texts(old(lines)@) + node_lines(task@, texts(deps@)),
{
    broadcast use crate::text::lemma_texts_push;
    let ghost start = texts(lines@);
    let mut line = "  \"".to_owned();
    line.append(task);
    line.append("\";");
    lines.push(line);
    let ghost all = node_lines(task@, texts(deps@));
    let mut i: usize = 0;
    assert(texts(lines@) =~= start + all.take(1));
    while i < deps.len()
        invariant
            i <= deps.len(),
            all == node_lines(task@, texts(deps@)),
            texts(lines@) == start + all.take(i + 1),
        decreases deps.len() - i,
    {
        broadcast use crate::text::lemma_texts_push;
        let mut line = "  \"".to_owned();
        line.append(deps[i].as_str());
        line.append("\" -> \"");
        line.append(task);
        line.append("\";");
        assert(line@ == all[i + 1]);
        lines.push(line);
        i += 1;
        assert(all.take(i + 1) =~= all.take(i as int).push(all[i as int]));
        assert(texts(lines@) =~= start + all.take(i + 1));
    }
    assert(all.take(deps.len() + 1) =~= all);
}

/// A drawing of the named tasks and what they depend on, in the DOT language.
pub fn dot_lines(names: &Vec<String>, tasks: &TextMap<TaskSpec>) -> (r: Vec<String>)
    requires
        tasks.wf(),
    ensures
        texts(r@) == seq!["digraph broski {"@] + nodes_lines(texts(names@), tasks@) + seq!["}"@],
{
    broadcast use crate::text::lemma_texts_push;
    let mut lines: Vec<String> = Vec::new();
    assert(texts(lines@) =~= Seq::<Seq<char>>::empty());
    lines.push("digraph broski {".to_owned());
    let ghost head = seq!["digraph broski {"@];
    let ghost all = texts(names@);
    let mut i: usize = 0;
    assert(all.take(0) =~= Seq::<Seq<char>>::empty());
    assert(texts(lines@) =~= head + nodes_lines(all.take(0), tasks@));
    while i < names.len()
        invariant
            tasks.wf(),
            i <= names.len(),
            all == texts(names@),
            texts(lines@) == head + nodes_lines(all.take(i as int), tasks@),
        decreases names.len() - i,
    {
        let name = names[i].as_str();
        let none: Vec<String> = Vec::new();
        assert(texts(none@) =~= Seq::<Seq<char>>::empty());
        let deps = match tasks.get(name) {
            Some(spec) => &spec.deps,
            None => &none,
        };
        let ghost before = nodes_lines(all.take(i as int), tasks@);
        push_node(&mut lines, name, deps);
        assert(all.take(i + 1).drop_last() =~= all.take(i as int));
        assert(all.take(i + 1).last() == name@);
        assert(texts(lines@) =~= head + (before + node_lines(name@, texts(deps@))));
        i += 1;
    }
    assert(all.take(names.len() as int) =~= all);
    lines.push("}".to_owned());
    assert(texts(lines@) =~= head + nodes_lines(all, tasks@) + seq!["}"@]);
    lines
}

/// The lines of the layers, numbered from zero.
pub fn layer_lines(layers: &Vec<Vec<String>>) -> (r: Vec<String>)
    ensures
        r@.len() == layers@.len(),
        forall|i: int|
            0 <= i < r@.len() ==> (#[trigger] r@[i])@ == "layer "@ + dec(i as nat) + ": "@ + join(
                texts(layers@[i]@),
                ", "@,
            ),
{
    let mut lines: Vec<String> = Vec::new();
    let mut i: usize = 0;
    while i < layers.len()
        invariant
            i <= layers.len(),
            lines.len() == i,
            forall|k: int|
                0 <= k < i ==> (#[trigger] lines@[k])@ == "layer "@ + dec(k as nat) + ": "@ + join(
                    texts(layers@[k]@),
                    ", "@,
                ),
        decreases layers.len() - i,
    {
        let mut line = "layer ".to_owned();
        let n = dec_string(i as u128);
        line.append(n.as_str());
        line.append(": ");
        let names = joined(&layers[i], ", ");
        line.append(names.as_str());
        lines.push(line);
        i += 1;
    }
    lines
}

/// What is printed after a prune.
pub fn prune_line(report: PruneReport) -> (r: String)
    ensures
        r@ == "pruned objects: "@ + dec(report.removed_objects as nat) + " (freed "@ + dec(
            report.removed_bytes as nat,
        ) + " bytes), remaining "@ + dec(report.remaining_bytes as nat) + " bytes"@,
{
    let mut r = "pruned objects: ".to_owned();
    let n = dec_string(report.removed_objects as u128);
    r.append(n.as_str());
    r.append(" (freed ");
    let n = dec_string(report.removed_bytes as u128);
    r.append(n.as_str());
    r.append(" bytes), remaining ");
    let n = dec_string(report.remaining_bytes as u128);
    r.append(n.as_str());
    r.append(" bytes");
    r
}

/// A line of the history of one task: when it ran, how long it took, and with
/// which fingerprint.
pub open spec fn task_row(when: Seq<char>, duration: Seq<char>, fingerprint: Seq<char>) -> Seq<char> {
    pad_right(when, 24) + " "@ + pad_left(duration, 10) + "  "@ + fingerprint
}

/// A line of the history of all tasks: which one ran, when, and how long it
/// took.
pub open spec fn overview_row(task: Seq<char>, when: Seq<char>, duration: Seq<char>) -> Seq<char> {
    pad_right(task, 32) + " "@ + pad_right(when, 24) + " "@ + pad_left(duration, 10)
}

/// A line of the history of one task.
fn task_row_string(when: &str, duration: &str, fingerprint: &str) -> (r: String)
    ensures
        r@ == task_row(when@, duration@, fingerprint@),
{
    let mut r = padded_right(when, 24);
    r.append(" ");
    let d = padded_left(duration, 10);
    r.append(d.as_str());
    r.append("  ");
    r.append(fingerprint);
    r
}

/// A line of the history of all tasks.
fn overview_row_string(task: &str, when: &str, duration: &str) -> (r: String)
    ensures
        r@ == overview_row(task@, when@, duration@),
{
    let mut r = padded_right(task, 32);
    r.append(" ");
    let w = padded_right(when, 24);
    r.append(w.as_str());
    r.append(" ");
    let d = padded_left(duration, 10);
    r.append(d.as_str());
    r
}

/// Whether the fingerprint can be shortened.
pub open spec fn can_shorten(fp: Seq<char>) -> bool {
    byte_len(fp) <= 12 || exists|k: int|
        0 <= k <= fp.len() && byte_len(#[trigger] fp.take(k)) == 12
}

/// Whether `short` is the fingerprint, shortened.
pub open spec fn is_shortened(fp: Seq<char>, short: Seq<char>) -> bool {
    if byte_len(fp) <= 12 {
        short == fp
    } else {
        exists|k: int|
            0 <= k <= fp.len() && byte_len(#[trigger] fp.take(k)) == 12 && short == fp.take(k)
                + "…"@
    }
}

/// Whether the line is that of the record, in the history of one task or of
/// all.
pub open spec fn is_history_line(
    line: Seq<char>,
    record: ExecutionRecord,
    one_task: bool,
    now: Duration,
) -> bool {
    let when = stamp_text(record.created_at as int, now);
    let took = recorded_duration_text(record.duration_ms as nat);
    if one_task {
        exists|short: Seq<char>| #[trigger]
            is_shortened(record.fingerprint@, short) && line == task_row(when, took, short)
    } else {
        line == overview_row(record.task_name@, when, took)
    }
}

/// The history that is printed: a head and a line for each record. `one_task`
/// tells whether the records are those of one task.
pub fn history_lines(records: &Vec<ExecutionRecord>, one_task: bool, now: Duration) -> (r: Vec<String>)
    requires
        one_task ==> forall|i: int|
            0 <= i < records@.len() ==> can_shorten((#[trigger] records@[i]).fingerprint@),
    ensures
        records@.len() == 0 ==> texts(r@) == seq!["(no history)"@],
        records@.len() > 0 ==> {
            &&& r@.len() == records@.len() + 1
            &&& r@[0]@ == (if one_task {
                task_row("WHEN"@, "DURATION"@, "FINGERPRINT"@)
            } else {
                overview_row("TASK"@, "LAST RUN"@, "DURATION"@)
            })
            &&& forall|i: int|
                0 <= i < records@.len() ==> is_history_line(
                    (#[trigger] r@[i + 1])@,
                    records@[i],
                    one_task,
                    now,
                )
        },
{
    let mut lines: Vec<String> = Vec::new();
    if records.len() == 0 {
        lines.push("(no history)".to_owned());
        assert(texts(lines@) =~= seq!["(no history)"@]);
        return lines;
    }
    if one_task {
        lines.push(task_row_string("WHEN", "DURATION", "FINGERPRINT"));
    } else {
        lines.push(overview_row_string("TASK", "LAST RUN", "DURATION"));
    }
    let ghost head = lines@[0];
    let mut i: usize = 0;
    while i < records.len()
        invariant
            i <= records.len(),
            lines.len() == i + 1,
            lines@[0] == head,
            one_task ==> forall|k: int|
                0 <= k < records@.len() ==> can_shorten((#[trigger] records@[k]).fingerprint@),
            forall|k: int|
                0 <= k < i ==> is_history_line(
                    (#[trigger] lines@[k + 1])@,
                    records@[k],
                    one_task,
                    now,
                ),
        decreases records.len() - i,
    {
        let record = &records[i];
        let when = format_unix_ts(record.created_at, now);
        let took = format_duration_ms(record.duration_ms);
        let line = if one_task {
            let fp = short_fingerprint(record.fingerprint.as_str());
            assert(is_shortened(record.fingerprint@, fp@));
            task_row_string(when.as_str(), took.as_str(), fp.as_str())
        } else {
            overview_row_string(record.task_name.as_str(), when.as_str(), took.as_str())
        };
        assert(is_history_line(line@, *record, one_task, now));
        let ghost before = lines@;
        lines.push(line);
        assert forall|k: int| 0 <= k < i + 1 implies is_history_line(
            (#[trigger] lines@[k + 1])@,
            records@[k],
            one_task,
            now,
        ) by {
            if k < i {
                assert(lines@[k + 1] == before[k + 1]);
            }
        }
        i += 1;
    }
    lines
}

/// The system that the program runs on, as far as systems are told apart here.
#[derive(Debug, Clone, Copy, PartialEq, Eq, Structural)]
pub enum Platform {
    Linux,
    Mac,
    Other,
}

/// What a sweep of the runtime's leftovers found.
#[derive(Debug, Clone, Copy, PartialEq, Eq, Structural)]
pub struct SweepReport {
    pub active_lock_detected: bool,
    pub stale_lock_detected: bool,
    pub stale_lock_removed: bool,
    pub stage_entries_removed: usize,
    pub tx_entries_removed: usize,
}

/// The names of the tasks that are to run in the sandbox.
pub open spec fn strict_names(keys: Seq<Seq<char>>, tasks: Map<Seq<char>, TaskSpec>) -> Seq<Seq<char>>
    decreases keys.len(),
{
    if keys.len() == 0 {
        Seq::empty()
    } else {
        let front = strict_names(keys.drop_last(), tasks);
        if tasks[keys.last()].apart() == IsolationMode::Strict {
            front.push(keys.last())
        } else {
            front
        }
    }
}

/// The names of the tasks that are to run in the sandbox.
pub fn strict_tasks(tasks: &TextMap<TaskSpec>) -> (r: Vec<String>)
    requires
        tasks.wf(),
    ensures
        texts(r@) == strict_names(tasks.keys(), tasks@),
{
    let mut r: Vec<String> = Vec::new();
    let n: usize = tasks.len();
    let ghost keys = tasks.keys();
    let mut i: usize = 0;
    assert(texts(r@) =~= strict_names(keys.take(0), tasks@));
    while i < n
        invariant
            tasks.wf(),
            keys == tasks.keys(),
            n == keys.len(),
            i <= n,
            texts(r@) == strict_names(keys.take(i as int), tasks@),
        decreases n - i,
    {
        broadcast use crate::text::lemma_texts_push;
        assert(keys.take(i + 1).drop_last() =~= keys.take(i as int));
        if tasks.value_at(i).effective_isolation() == IsolationMode::Strict {
            r.push(tasks.key_at(i).to_owned());
        }
        i += 1;
    }
    assert(keys.take(n as int) =~= keys);
    r
}

/// What the doctor warns of when there are tasks for the sandbox: that it does
/// not work here, or that there is none.
pub open spec fn sandbox_warning(platform: Platform, probe: Option<Seq<char>>) -> Option<Seq<char>> {
    match platform {
        Platform::Linux => match probe {
            Some(error) => Some("strict isolation doctor probe failed: "@ + error),
            None => None,
        },
        Platform::Mac => Some(
            "strict isolation tasks are configured but strict sandboxing is unsupported on macOS"@,
        ),
        Platform::Other => None,
    }
}

/// What the doctor says of the tasks for the sandbox.
pub open spec fn sandbox_lines(
    strict: Seq<Seq<char>>,
    platform: Platform,
    probe: Option<Seq<char>>,
) -> Seq<Seq<char>> {
    if strict.len() == 0 {
        seq!["isolation: no strict tasks declared"@]
    } else {
        let head = "strict isolation tasks: "@ + join(strict, ", "@);
        match sandbox_warning(platform, probe) {
            Some(warning) => seq![head, "strict isolation probe: warning"@, "- "@ + warning],
            None => if platform == Platform::Linux {
                seq![head, "strict isolation probe: ok"@]
            } else {
                seq![head]
            },
        }
    }
}

/// What the doctor says.
pub open spec fn doctor_lines(
    workspace: Seq<char>,
    tasks: nat,
    repair: bool,
    sweep: SweepReport,
    strict: Seq<Seq<char>>,
    platform: Platform,
    probe: Option<Seq<char>>,
) -> Seq<Seq<char>> {
    let lock: Seq<Seq<char>> = if sweep.stale_lock_detected {
        seq![
            "runtime lock: stale detected (removed: "@ + (if sweep.stale_lock_removed {
                "yes"@
            } else {
                "no"@
            }) + ")"@,
        ]
    } else {
        Seq::empty()
    };
    seq![
        "doctor: ok"@,
        "workspace: "@ + workspace,
        "tasks: "@ + dec(tasks),
        "repair mode: "@ + (if repair {
            "enabled"@
        } else {
            "disabled"@
        }),
    ] + lock + seq![
        "sweep cleanup: stage="@ + dec(sweep.stage_entries_removed as nat) + " tx="@ + dec(
            sweep.tx_entries_removed as nat,
        ),
    ] + sandbox_lines(strict, platform, probe)
}

/// What the doctor says of the tasks for the sandbox.
fn push_sandbox(
    lines: &mut Vec<String>,
    strict: &Vec<String>,
    platform: Platform,
    probe: &Option<String>,
)
    ensures
        texts(final(lines)@) == texts(old(lines)@) + sandbox_lines(
            texts(strict@),
            platform,
            opt_text(*probe),
        ),
{
    broadcast use crate::text::lemma_texts_push;
    let ghost start = texts(lines@);
    if strict.len() == 0 {
        lines.push("isolation: no strict tasks declared".to_owned());
    } else {
        let mut head = "strict isolation tasks: ".to_owned();
        let names = joined(strict, ", ");
        head.append(names.as_str());
        lines.push(head);
        match platform {
            Platform::Linux => match probe {
                Some(error) => {
                    lines.push("strict isolation probe: warning".to_owned());
                    let mut w = "- ".to_owned();
                    w.append("strict isolation doctor probe failed: ");
                    w.append(error.as_str());
                    assert(w@ =~= "- "@ + ("strict isolation doctor probe failed: "@ + error@));
                    lines.push(w);
                },
                None => {
                    lines.push("strict isolation probe: ok".to_owned());
                },
            },
            Platform::Mac => {
                lines.push("strict isolation probe: warning".to_owned());
                let mut w = "- ".to_owned();
                w.append(
                    "strict isolation tasks are configured but strict sandboxing is unsupported on macOS",
                );
                lines.push(w);
            },
            Platform::Other => {},
        }
    }
    assert(texts(lines@) =~= start + sandbox_lines(texts(strict@), platform, opt_text(*probe)));
}

/// What the doctor says of a workspace. `probe` is why the sandbox does not
/// work, if it does not. Refused while another run holds the lock.
pub fn doctor_report(
    workspace: &str,
    config: &BroskiFile,
    repair: bool,
    sweep: SweepReport,
    platform: Platform,
    probe: &Option<String>,
) -> (r: Result<Vec<String>, String>)
    requires
        config.wf(),
    ensures
        match r {
            Ok(lines) => !sweep.active_lock_detected && texts(lines@) == doctor_lines(
                workspace@,
                config.task.keys().len(),
                repair,
                sweep,
                strict_names(config.task.keys(), config.task@),
                platform,
                opt_text(*probe),
            ),
            Err(text) => sweep.active_lock_detected && text@
                == "another Broski execution is active; cannot run doctor sweep while lock is live"@,
        },
{
    broadcast use crate::text::lemma_texts_push;
    if sweep.active_lock_detected {
        return Err(
            "another Broski execution is active; cannot run doctor sweep while lock is live".to_owned(),
        );
    }
    let strict = strict_tasks(&config.task);
    let mut lines: Vec<String> = Vec::new();
    assert(texts(lines@) =~= Seq::<Seq<char>>::empty());
    lines.push("doctor: ok".to_owned());
    let mut line = "workspace: ".to_owned();
    line.append(workspace);
    lines.push(line);
    let mut line = "tasks: ".to_owned();
    let n = dec_string(config.task.len() as u128);
    line.append(n.as_str());
    lines.push(line);
    let mut line = "repair mode: ".to_owned();
    if repair {
        line.append("enabled");
    } else {
        line.append("disabled");
    }
    lines.push(line);
    if sweep.stale_lock_detected {
        let mut line = "runtime lock: stale detected (removed: ".to_owned();
        if sweep.stale_lock_removed {
            line.append("yes");
        } else {
            line.append("no");
        }
        line.append(")");
        lines.push(line);
    }
    let mut line = "sweep cleanup: stage=".to_owned();
    let n = dec_string(sweep.stage_entries_removed as u128);
    line.append(n.as_str());
    line.append(" tx=");
    let n = dec_string(sweep.tx_entries_removed as u128);
    line.append(n.as_str());
    lines.push(line);
    let ghost head = texts(lines@);
    push_sandbox(&mut lines, &strict, platform, probe);
    assert(texts(lines@) =~= doctor_lines(
        workspace@,
        config.task.keys().len(),
        repair,
        sweep,
        texts(strict@),
        platform,
        opt_text(*probe),
    ));
    Ok(lines)
}

/// The arguments of the sandbox for a trial.
pub open spec fn probe_words() -> Seq<Seq<char>> {
    seq![
        "--die-with-parent"@,
        "--new-session"@,
        "--unshare-net"@,
        "--ro-bind"@,
        "/"@,
        "/"@,
        "--proc"@,
        "/proc"@,
        "--dev"@,
        "/dev"@,
        "--tmpfs"@,
        "/tmp"@,
        "/bin/sh"@,
        "-lc"@,
        "echo BROSKI_BWRAP_OK"@,
    ]
}

/// The arguments of the sandbox for a trial.
pub fn probe_args() -> (r: Vec<String>)
    ensures
        texts(r@) == probe_words(),
{
    broadcast use crate::text::lemma_texts_push;
    let mut args: Vec<String> = Vec::new();
    assert(texts(args@) =~= Seq::<Seq<char>>::empty());
    args.push("--die-with-parent".to_owned());
    args.push("--new-session".to_owned());
    args.push("--unshare-net".to_owned());
    args.push("--ro-bind".to_owned());
    args.push("/".to_owned());
    args.push("/".to_owned());
    args.push("--proc".to_owned());
    args.push("/proc".to_owned());
    args.push("--dev".to_owned());
    args.push("/dev".to_owned());
    args.push("--tmpfs".to_owned());
    args.push("/tmp".to_owned());
    args.push("/bin/sh".to_owned());
    args.push("-lc".to_owned());
    args.push("echo BROSKI_BWRAP_OK".to_owned());
    assert(texts(args@) =~= probe_words());
    args
}

/// Why the trial shows that the sandbox does not work; `None` when it works.
pub fn probe_failure(success: bool, status: &str, stdout: &str) -> (r: Option<String>)
    ensures
        match r {
            Some(text) => if !success {
                text@ == "bwrap probe command failed with status "@ + status@
            } else {
                &&& !contains(stdout@, "BROSKI_BWRAP_OK"@)
                &&& text@ == "bwrap probe output missing token; got: "@ + trim(stdout@)
            },
            None => success && contains(stdout@, "BROSKI_BWRAP_OK"@),
        },
{
    if !success {
        let mut r = "bwrap probe command failed with status ".to_owned();
        r.append(status);
        return Some(r);
    }
    if !has_part(stdout, "BROSKI_BWRAP_OK") {
        let mut r = "bwrap probe output missing token; got: ".to_owned();
        let got = trimmed(stdout);
        r.append(got.as_str());
        return Some(r);
    }
    None
}

/// A list that is printed after a run names all of its tasks, in their order, behind its
/// heading, and is left out when it is empty.
pub proof fn law_summary_names_the_tasks(summary: RunSummary, explain: bool, r: Vec<String>)
    requires
        call_ensures(emit_run_summary, (&summary, explain), r),
    ensures
        summary.cache_hits@.len() > 0 ==> r@.len() > 0 && r@[0]@ == "cache hits: "@ + join(
            texts(summary.cache_hits@),
            ", "@,
        ),
        summary.executed@.len() > 0 ==> {
            let at: int = if summary.cache_hits@.len() > 0 {
                1
            } else {
                0
            };
            r@.len() > at && r@[at]@ == "executed: "@ + join(texts(summary.executed@), ", "@)
        },
        summary.dry_run@.len() > 0 ==> {
            let at: int = (if summary.cache_hits@.len() > 0 {
                1int
            } else {
                0
            }) + (if summary.executed@.len() > 0 {
                1int
            } else {
                0
            });
            r@.len() > at && r@[at]@ == "dry-run: "@ + join(texts(summary.dry_run@), ", "@)
        },
        !explain ==> r@.len() == (if summary.cache_hits@.len() > 0 {
            1int
        } else {
            0
        }) + (if summary.executed@.len() > 0 {
            1int
        } else {
            0
        }) + (if summary.dry_run@.len() > 0 {
            1int
        } else {
            0
        }),
{
    let lines = texts(r@);
    assert(lines == summary_text(summary, explain));
    assert(lines.len() == r@.len());
    assert forall|i: int| 0 <= i < r@.len() implies #[trigger] r@[i]@ == lines[i] by {}
}

/// The brief summary names the tasks from the cache and those that were executed, and nothing
/// else.
pub proof fn law_brief_summary_names_the_tasks(summary: RunSummary, r: Vec<String>)
    requires
        call_ensures(brief_summary, (&summary,), r),
    ensures
        summary.cache_hits@.len() > 0 ==> r@.len() > 0 && r@[0]@ == "cache hits: "@ + join(
            texts(summary.cache_hits@),
            ", "@,
        ),
        summary.executed@.len() > 0 ==> r@.len() > 0 && r@.last()@ == "executed: "@ + join(
            texts(summary.executed@),
            ", "@,
        ),
        r@.len() == (if summary.cache_hits@.len() > 0 {
            1int
        } else {
            0
        }) + (if summary.executed@.len() > 0 {
            1int
        } else {
            0
        }),
{
    let lines = texts(r@);
    assert(lines.len() == r@.len());
    assert forall|i: int| 0 <= i < r@.len() implies #[trigger] r@[i]@ == lines[i] by {}
}

/// With an explanation, the tasks follow one after the other in the order of the keys. Of a
/// task its name is told, then its reasons in their order, ten at most, and how many more
/// there are if there are more.
pub proof fn law_reasons_are_told_up_to_ten(
    keys: Seq<Seq<char>>,
    name: Seq<char>,
    reasons: Map<Seq<char>, Vec<String>>,
    i: int,
)
    ensures
        explained(keys.push(name), reasons) == explained(keys, reasons) + task_lines(
            name,
            texts(reasons[name]@),
        ),
        explained(Seq::empty(), reasons).len() == 0,
        ({
            let told = texts(reasons[name]@);
            let lines = task_lines(name, told);
            &&& lines[0] == "explain "@ + name + ":"@
            &&& 0 <= i < told.len() && i < 10 ==> lines[i + 1] == "- "@ + told[i]
            &&& told.len() <= 10 ==> lines.len() == told.len() + 1
            &&& told.len() > 10 ==> lines.len() == 12 && lines[11] == "- +"@ + dec(
                (told.len() - 10) as nat,
            ) + " more changes"@
        }),
{
    assert(keys.push(name).drop_last() =~= keys);
}

/// The reasons are printed behind the lists, and only if they are asked for.
pub proof fn law_reasons_stand_behind_the_lists(summary: RunSummary, plain: Vec<String>, full: Vec<String>)
    requires
        call_ensures(emit_run_summary, (&summary, false), plain),
        call_ensures(emit_run_summary, (&summary, true), full),
    ensures
        texts(full@) == texts(plain@) + explained(
            summary.cache_miss_reasons.keys(),
            summary.cache_miss_reasons@,
        ),
{
    let p = summary_text(summary, false);
    assert(texts(full@) =~= p + explained(
        summary.cache_miss_reasons.keys(),
        summary.cache_miss_reasons@,
    ));
}

/// A fingerprint of no more than twelve bytes is shown whole; of a longer one the first twelve
/// bytes are shown, with an ellipsis behind them.
pub proof fn law_fingerprint_is_cut_at_twelve_bytes(fp: &str, r: String)
    requires
        call_ensures(short_fingerprint, (fp,), r),
    ensures
        byte_len(fp@) <= 12 ==> r@ == fp@,
        byte_len(fp@) > 12 ==> {
            &&& r@.len() >= 1
            &&& r@.last() == '…'
            &&& byte_len(r@.drop_last()) == 12
            &&& r@.drop_last().is_prefix_of(fp@)
        },
{
    if byte_len(fp@) > 12 {
        reveal_strlit("…");
        let k = choose|k: int|
            0 <= k <= fp@.len() && byte_len(#[trigger] fp@.take(k)) == 12 && r@ == fp@.take(k) + "…"@;
        assert(r@.drop_last() =~= fp@.take(k));
    }
}

/// The list shows the tasks that are not private, in their order: the name, and behind it the
/// description of one that has it.
pub proof fn law_list_shows_public_tasks(
    keys: Seq<Seq<char>>,
    tasks: Map<Seq<char>, TaskSpec>,
    name: Seq<char>,
)
    ensures
        tasks[name].private ==> list_lines(keys.push(name), tasks) == list_lines(keys, tasks),
        !tasks[name].private && tasks[name].description is None ==> list_lines(keys.push(name), tasks)
            == list_lines(keys, tasks).push(name),
        !tasks[name].private ==> (tasks[name].description matches Some(text) ==> list_lines(
            keys.push(name),
            tasks,
        ) == list_lines(keys, tasks).push(name + "\t- "@ + text@)),
        list_lines(Seq::empty(), tasks).len() == 0,
{
    assert(keys.push(name).drop_last() =~= keys);
}

/// An alias is listed with the task that it stands for, unless that task is private.
pub proof fn law_list_shows_aliases(
    keys: Seq<Seq<char>>,
    aliases: Map<Seq<char>, String>,
    tasks: Map<Seq<char>, TaskSpec>,
    name: Seq<char>,
)
    ensures
        ({
            let target = aliases[name]@;
            let hidden = tasks.contains_key(target) && tasks[target].private;
            &&& hidden ==> alias_lines(keys.push(name), aliases, tasks) == alias_lines(keys, aliases, tasks)
            &&& !hidden ==> alias_lines(keys.push(name), aliases, tasks) == alias_lines(
                keys,
                aliases,
                tasks,
            ).push("alias "@ + name + " -> "@ + target)
        }),
        alias_lines(Seq::empty(), aliases, tasks).len() == 0,
{
    assert(keys.push(name).drop_last() =~= keys);
}

/// The list of a file shows all of its tasks, then all of its aliases.
pub proof fn law_list_of_a_file(config: BroskiFile, r: Vec<String>)
    requires
        call_ensures(task_list, (&config,), r),
    ensures
        texts(r@) == list_lines(config.task.keys(), config.task@) + alias_lines(
            config.alias.keys(),
            config.alias@,
            config.task@,
        ),
{
}

/// A drawing of the graph has each named task once as a node, followed by an arrow to it from
/// each task that it depends on.
pub proof fn law_drawing_points_from_dependencies(
    names: Seq<Seq<char>>,
    tasks: Map<Seq<char>, TaskSpec>,
    task: Seq<char>,
    i: int,
)
    requires
        tasks.contains_key(task),
        0 <= i < tasks[task].deps@.len(),
    ensures
        ({
            let before = nodes_lines(names, tasks);
            let after = nodes_lines(names.push(task), tasks);
            &&& after.len() == before.len() + 1 + tasks[task].deps@.len()
            &&& before.is_prefix_of(after)
            &&& after[before.len() as int] == "  \""@ + task + "\";"@
            &&& after[before.len() + 1 + i] == "  \""@ + tasks[task].deps@[i]@ + "\" -> \""@ + task + "\";"@
        }),
        nodes_lines(Seq::empty(), tasks).len() == 0,
{
    assert(names.push(task).drop_last() =~= names);
    assert(texts(tasks[task].deps@)[i] == tasks[task].deps@[i]@);
}

/// A drawing begins with the opening of a graph in the DOT language and ends with its close.
pub proof fn law_drawing_is_a_graph(names: Vec<String>, tasks: TextMap<TaskSpec>, r: Vec<String>)
    requires
        call_ensures(dot_lines, (&names, &tasks), r),
    ensures
        r@.len() >= 2,
        r@[0]@ == "digraph broski {"@,
        r@.last()@ == "}"@,
        texts(r@).subrange(1, r@.len() - 1) == nodes_lines(texts(names@), tasks@),
{
    let lines = texts(r@);
    assert(lines.len() == r@.len());
    assert(lines[0] == r@[0]@);
    assert(lines[r@.len() - 1] == r@[r@.len() - 1]@);
    assert(lines.subrange(1, r@.len() - 1) =~= nodes_lines(texts(names@), tasks@));
}

/// The layers are numbered from zero, each line names the tasks of its layer in their order.
pub proof fn law_layers_are_numbered(layers: Vec<Vec<String>>, r: Vec<String>, i: int)
    requires
        call_ensures(layer_lines, (&layers,), r),
        0 <= i < layers@.len(),
    ensures
        r@.len() == layers@.len(),
        r@[i]@ == "layer "@ + dec(i as nat) + ": "@ + join(texts(layers@[i]@), ", "@),
{
}

/// What a prune did is told as it was counted.
pub proof fn law_prune_line_tells_the_counts(report: PruneReport, r: String)
    requires
        call_ensures(prune_line, (report,), r),
    ensures
        r@ == "pruned objects: "@ + dec(report.removed_objects as nat) + " (freed "@ + dec(
            report.removed_bytes as nat,
        ) + " bytes), remaining "@ + dec(report.remaining_bytes as nat) + " bytes"@,
{
}

/// The cache stands in the workspace.
pub proof fn law_cache_stands_in_the_workspace(workspace: &str, r: String)
    requires
        call_ensures(cache_root, (workspace,), r),
    ensures
        r@ == joined_path(workspace@, ".broski/cache"@),
{
}

/// The columns of a history stand one below the other: as long as a text fits its column, the
/// columns begin and end at the same places.
pub proof fn law_history_has_columns(a: Seq<char>, b: Seq<char>, c: Seq<char>)
    requires
        a.len() <= 24,
        b.len() <= 10,
    ensures
        task_row(a, b, c).take(a.len() as int) == a,
        task_row(a, b, c).subrange(35 - b.len(), 35) == b,
        task_row(a, b, c).skip(37) == c,
        task_row(a, b, c).len() == 37 + c.len(),
        c.len() <= 32 ==> {
            &&& overview_row(c, a, b).len() == 68
            &&& overview_row(c, a, b).take(c.len() as int) == c
            &&& overview_row(c, a, b).subrange(33, 33int + a.len()) == a
            &&& overview_row(c, a, b).skip(68 - b.len()) == b
        },
{
    reveal_strlit(" ");
    reveal_strlit("  ");
    assert(pad_right(a, 24).len() == 24 && pad_left(b, 10).len() == 10);
    assert(task_row(a, b, c).take(a.len() as int) =~= a);
    assert(task_row(a, b, c).subrange(35 - b.len(), 35) =~= b);
    assert(task_row(a, b, c).skip(37) =~= c);
    if c.len() <= 32 {
        assert(pad_right(c, 32).len() == 32);
        assert(overview_row(c, a, b).take(c.len() as int) =~= c);
        assert(overview_row(c, a, b).subrange(33, 33int + a.len()) =~= a);
        assert(overview_row(c, a, b).skip(68 - b.len()) =~= b);
    }
}

/// A history has a line for each record, in their order, below its head: when it ran, how long
/// it took, and the fingerprint or the task. Without records it says so.
pub proof fn law_history_has_a_line_per_record(
    records: Vec<ExecutionRecord>,
    one_task: bool,
    now: Duration,
    r: Vec<String>,
    i: int,
)
    requires
        call_ensures(history_lines, (&records, one_task, now), r),
    ensures
        records@.len() == 0 ==> r@.len() == 1 && r@[0]@ == "(no history)"@,
        records@.len() > 0 ==> r@.len() == records@.len() + 1,
        records@.len() > 0 && one_task ==> r@[0]@ == task_row("WHEN"@, "DURATION"@, "FINGERPRINT"@),
        records@.len() > 0 && !one_task ==> r@[0]@ == overview_row("TASK"@, "LAST RUN"@, "DURATION"@),
        0 <= i < records@.len() && !one_task ==> r@[i + 1]@ == overview_row(
            records@[i].task_name@,
            stamp_text(records@[i].created_at as int, now),
            recorded_duration_text(records@[i].duration_ms as nat),
        ),
        0 <= i < records@.len() && one_task && byte_len(records@[i].fingerprint@) <= 12 ==> r@[i + 1]@
            == task_row(
            stamp_text(records@[i].created_at as int, now),
            recorded_duration_text(records@[i].duration_ms as nat),
            records@[i].fingerprint@,
        ),
        0 <= i < records@.len() && one_task && byte_len(records@[i].fingerprint@) > 12 ==> exists|k: int|
            byte_len(#[trigger] records@[i].fingerprint@.take(k)) == 12 && r@[i + 1]@ == task_row(
                stamp_text(records@[i].created_at as int, now),
                recorded_duration_text(records@[i].duration_ms as nat),
                records@[i].fingerprint@.take(k) + "…"@,
            ),
{
    if records@.len() == 0 {
        assert(texts(r@).len() == r@.len());
        assert(texts(r@)[0] == r@[0]@);
    }
    if 0 <= i < records@.len() {
        assert(is_history_line(r@[i + 1]@, records@[i], one_task, now));
        if one_task && byte_len(records@[i].fingerprint@) > 12 {
            let fp = records@[i].fingerprint@;
            let short = choose|short: Seq<char>| #[trigger]
                is_shortened(fp, short) && r@[i + 1]@ == task_row(
                    stamp_text(records@[i].created_at as int, now),
                    recorded_duration_text(records@[i].duration_ms as nat),
                    short,
                );
            let k = choose|k: int|
                0 <= k <= fp.len() && byte_len(#[trigger] fp.take(k)) == 12 && short == fp.take(k) + "…"@;
            assert(byte_len(fp.take(k)) == 12);
        }
    }
}

/// The tasks for the sandbox are those that are kept apart strictly, all of them, in their
/// order.
pub proof fn law_strict_tasks_are_found(keys: Seq<Seq<char>>, tasks: Map<Seq<char>, TaskSpec>)
    ensures
        strict_names(keys, tasks) == keys.filter(
            |k: Seq<char>| tasks[k].isolation == Some(IsolationMode::Strict),
        ),
    decreases keys.len(),
{
    reveal(Seq::filter);
    if keys.len() > 0 {
        law_strict_tasks_are_found(keys.drop_last(), tasks);
    } else {
        assert(strict_names(keys, tasks) =~= keys.filter(
            |k: Seq<char>| tasks[k].isolation == Some(IsolationMode::Strict),
        ));
    }
}

/// The doctor is refused while another run holds the lock, and only then. It says where the
/// workspace is, how many tasks it has, whether it repairs, and what it cleaned up; of a stale
/// lock it says whether that was removed.
pub proof fn law_doctor_says_what_it_found(
    workspace: &str,
    config: BroskiFile,
    repair: bool,
    sweep: SweepReport,
    platform: Platform,
    probe: Option<String>,
    r: Result<Vec<String>, String>,
)
    requires
        call_ensures(doctor_report, (workspace, &config, repair, sweep, platform, &probe), r),
    ensures
        r is Err <==> sweep.active_lock_detected,
        r matches Ok(lines) ==> {
            let told = texts(lines@);
            let cleanup = "sweep cleanup: stage="@ + dec(sweep.stage_entries_removed as nat) + " tx="@
                + dec(sweep.tx_entries_removed as nat);
            &&& told.len() >= 5
            &&& told[0] == "doctor: ok"@
            &&& told[1] == "workspace: "@ + workspace@
            &&& told[2] == "tasks: "@ + dec(config.task.keys().len())
            &&& repair ==> told[3] == "repair mode: "@ + "enabled"@
            &&& !repair ==> told[3] == "repair mode: "@ + "disabled"@
            &&& sweep.stale_lock_detected && sweep.stale_lock_removed ==> told[4]
                == "runtime lock: stale detected (removed: "@ + "yes"@ + ")"@
            &&& sweep.stale_lock_detected && !sweep.stale_lock_removed ==> told[4]
                == "runtime lock: stale detected (removed: "@ + "no"@ + ")"@
            &&& sweep.stale_lock_detected ==> told.len() >= 6 && told[5] == cleanup
            &&& !sweep.stale_lock_detected ==> told[4] == cleanup
        },
{
}

/// Of the sandbox the doctor says that no task needs it, or which tasks do; that it works on
/// Linux, why it does not, and that there is none on macOS.
pub proof fn law_doctor_says_how_the_sandbox_is(
    strict: Seq<Seq<char>>,
    platform: Platform,
    probe: Option<Seq<char>>,
)
    ensures
        strict.len() == 0 ==> sandbox_lines(strict, platform, probe) == seq![
            "isolation: no strict tasks declared"@,
        ],
        strict.len() > 0 ==> {
            let lines = sandbox_lines(strict, platform, probe);
            &&& lines.len() >= 1
            &&& lines[0] == "strict isolation tasks: "@ + join(strict, ", "@)
            &&& platform == Platform::Linux && probe is None ==> lines.len() == 2 && lines[1]
                == "strict isolation probe: ok"@
            &&& platform == Platform::Linux ==> (probe matches Some(error) ==> lines.len() == 3 && lines[1]
                == "strict isolation probe: warning"@ && lines[2] == "- "@ + (
            "strict isolation doctor probe failed: "@ + error))
            &&& platform == Platform::Mac ==> lines.len() == 3 && lines[1]
                == "strict isolation probe: warning"@ && lines[2] == "- "@
                + "strict isolation tasks are configured but strict sandboxing is unsupported on macOS"@
            &&& platform == Platform::Other ==> lines.len() == 1
        },
{
}

/// The trial of the sandbox is done without a network, on a system that cannot be written to,
/// and it prints the word by which it is known to have worked.
pub proof fn law_trial_prints_its_word(success: bool, status: &str, stdout: &str, r: Option<String>)
    requires
        call_ensures(probe_failure, (success, status, stdout), r),
    ensures
        probe_words().contains("--unshare-net"@),
        probe_words().contains("--ro-bind"@),
        contains(probe_words().last(), "BROSKI_BWRAP_OK"@),
        r is None <==> success && contains(stdout@, "BROSKI_BWRAP_OK"@),
        !success ==> (r matches Some(text) && text@ == "bwrap probe command failed with status "@ + status@),
        success && !contains(stdout@, "BROSKI_BWRAP_OK"@) ==> (r matches Some(text) && text@
            == "bwrap probe output missing token; got: "@ + trim(stdout@)),
{
    assert(probe_words()[2] == "--unshare-net"@);
    assert(probe_words()[3] == "--ro-bind"@);
    reveal_strlit("BROSKI_BWRAP_OK");
    reveal_strlit("echo BROSKI_BWRAP_OK");
    assert("echo BROSKI_BWRAP_OK"@.subrange(5, 20) =~= "BROSKI_BWRAP_OK"@);
    assert(crate::text::occurs_at("echo BROSKI_BWRAP_OK"@, "BROSKI_BWRAP_OK"@, 5));
}

/// The tasks for the sandbox and the trial are handed out as they are told.
pub proof fn law_strict_tasks_handed_out(tasks: TextMap<TaskSpec>, strict: Vec<String>, args: Vec<String>)
    requires
        call_ensures(strict_tasks, (&tasks,), strict),
        call_ensures(probe_args, (), args),
    ensures
        texts(strict@) == tasks.keys().filter(
            |k: Seq<char>| tasks@[k].isolation == Some(IsolationMode::Strict),
        ),
        args@.len() == 15,
        args@[2]@ == "--unshare-net"@,
        args@[12]@ == "/bin/sh"@,
        args@[13]@ == "-lc"@,
        args@[14]@ == "echo BROSKI_BWRAP_OK"@,
        args@[3]@ == "--ro-bind"@ && args@[4]@ == "/"@ && args@[5]@ == "/"@,
{
    law_strict_tasks_are_found(tasks.keys(), tasks@);
    let words = texts(args@);
    assert(words.len() == args@.len());
    assert(words[2] == args@[2]@ && words[3] == args@[3]@ && words[4] == args@[4]@ && words[5]
        == args@[5]@);
    assert(words[12] == args@[12]@ && words[13] == args@[13]@ && words[14] == args@[14]@);
}

} // verus!
