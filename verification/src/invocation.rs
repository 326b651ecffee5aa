//! What is asked for on the command line.

use vstd::prelude::*;
use crate::executor::{at_least_one, may_count, RunOptions};
use crate::number::{
    dec, is_usize_literal, law_decimal_reads_back, parse_usize, unsigned_digits, value,
};
use crate::text::{same, starts_with, strip_prefix, texts, to_chars};
use crate::theme::{theme_of, Theme};

verus! {

/// A task that is run by its bare name, with what is asked for beside it.
#[derive(Debug, Clone)]
pub struct ImplicitTaskInvocation {
    pub task: String,
    pub dry_run: bool,
    pub explain: bool,
    pub force: bool,
    pub no_cache: bool,
    pub watch: bool,
    pub force_isolation: bool,
    pub jobs: Option<usize>,
    /// What is handed to the task.
    pub args: Vec<String>,
}

/// Why a command line is refused.
#[derive(Debug, Clone, PartialEq, Eq)]
pub enum InvocationError {
    /// There is no task name.
    NoTask,
    /// The number of jobs is no number.
    BadJobs { value: String },
    /// The number of jobs is not joined to its flag.
    JobsNotJoined { task: String },
}

impl InvocationError {
    /// What is said of the command line.
    pub open spec fn text(self) -> Seq<char> {
        match self {
            InvocationError::NoTask => "implicit task execution expected a task name"@,
            InvocationError::BadJobs { value } => "invalid value for --jobs: "@ + value@,
            InvocationError::JobsNotJoined { task } => "implicit task invocation requires --jobs=<n>; use explicit `broski run "@
                + task@ + " --jobs <n>` for space-separated jobs"@,
        }
    }

    /// What is said of the command line.
    pub fn message(&self) -> (r: String)
        ensures
            r@ == self.text(),
    {
        match self {
            InvocationError::NoTask => "implicit task execution expected a task name".to_owned(),
            InvocationError::BadJobs { value } => {
                let mut r = "invalid value for --jobs: ".to_owned();
                r.append(value.as_str());
                r
            },
            InvocationError::JobsNotJoined { task } => {
                let mut r = "implicit task invocation requires --jobs=<n>; use explicit `broski run ".to_owned();
                r.append(task.as_str());
                r.append(" --jobs <n>` for space-separated jobs");
                r
            },
        }
    }
}

/// What has been read of a command line behind the task's name.
pub ghost struct Reading {
    pub dry_run: bool,
    pub explain: bool,
    pub force: bool,
    pub no_cache: bool,
    pub watch: bool,
    pub force_isolation: bool,
    pub jobs: Option<int>,
    pub args: Seq<Seq<char>>,
    /// Whether a `--` was read, behind which everything goes to the task.
    pub passing: bool,
}

/// Why the reading stops.
pub ghost enum Fault {
    BadJobs(Seq<char>),
    JobsNotJoined,
}

/// Nothing has been read.
pub open spec fn nothing_read() -> Reading {
    Reading {
        dry_run: false,
        explain: false,
        force: false,
        no_cache: false,
        watch: false,
        force_isolation: false,
        jobs: None,
        args: Seq::empty(),
        passing: false,
    }
}

impl Reading {
    /// What follows the word. Up to a `--` the flags are taken out; any other
    /// word goes to the task, but for a `--` itself.
    pub open spec fn with(self, word: Seq<char>) -> Result<Reading, Fault> {
        if word == "--"@ {
            Ok(Reading { passing: true, ..self })
        } else if self.passing {
            Ok(Reading { args: self.args.push(word), ..self })
        } else if word == "--dry-run"@ {
            Ok(Reading { dry_run: true, ..self })
        } else if word == "--explain"@ {
            Ok(Reading { explain: true, ..self })
        } else if word == "--force"@ {
            Ok(Reading { force: true, ..self })
        } else if word == "--no-cache"@ {
            Ok(Reading { no_cache: true, ..self })
        } else if word == "--watch"@ {
            Ok(Reading { watch: true, ..self })
        } else if word == "--force-isolation"@ {
            Ok(Reading { force_isolation: true, ..self })
        } else if starts_with(word, "--jobs="@) {
            let given = word.skip("--jobs="@.len() as int);
            if is_usize_literal(given) {
                Ok(Reading { jobs: Some(at_least_one(value(unsigned_digits(given)) as int)), ..self })
            } else {
                Err(Fault::BadJobs(given))
            }
        } else if word == "--jobs"@ {
            Err(Fault::JobsNotJoined)
        } else {
            Ok(Reading { args: self.args.push(word), ..self })
        }
    }
}

/// What the words say, read one after the other; the first fault ends it.
pub open spec fn reading(words: Seq<Seq<char>>) -> Result<Reading, Fault>
    decreases words.len(),
{
    if words.len() == 0 {
        Ok(nothing_read())
    } else {
        match reading(words.drop_last()) {
            Ok(r) => r.with(words.last()),
            Err(e) => Err(e),
        }
    }
}

/// Whether the invocation is what was read.
pub open spec fn is_reading(i: ImplicitTaskInvocation, r: Reading) -> bool {
    &&& i.dry_run == r.dry_run
    &&& i.explain == r.explain
    &&& i.force == r.force
    &&& i.no_cache == r.no_cache
    &&& i.watch == r.watch
    &&& i.force_isolation == r.force_isolation
    &&& match (i.jobs, r.jobs) {
        (Some(a), Some(b)) => a == b,
        (None, None) => true,
        _ => false,
    }
    &&& texts(i.args@) == r.args
}

/// A fault is not mended by what follows.
proof fn lemma_fault_stays(words: Seq<Seq<char>>, n: int)
    requires
        0 <= n <= words.len(),
        reading(words.take(n)) is Err,
    ensures
        reading(words) == reading(words.take(n)),
    decreases words.len(),
{
    if n == words.len() {
        assert(words.take(n) =~= words);
    } else {
        assert(words.drop_last().take(n) =~= words.take(n));
        lemma_fault_stays(words.drop_last(), n);
    }
}

/// Reads a command line that starts with a task's name.
pub fn parse_implicit_task_args(raw: Vec<String>) -> (r: Result<
    ImplicitTaskInvocation,
    InvocationError,
>)
    ensures
        match r {
            Ok(i) => {
                &&& raw@.len() > 0
                &&& i.task@ == raw@[0]@
                &&& reading(texts(raw@).skip(1)) matches Ok(read) && is_reading(i, read)
            },
            Err(InvocationError::NoTask) => raw@.len() == 0,
            Err(InvocationError::BadJobs { value }) => {
                &&& raw@.len() > 0
                &&& reading(texts(raw@).skip(1)) == Err::<Reading, Fault>(Fault::BadJobs(value@))
            },
            Err(InvocationError::JobsNotJoined { task }) => {
                &&& raw@.len() > 0
                &&& task@ == raw@[0]@
                &&& reading(texts(raw@).skip(1)) == Err::<Reading, Fault>(Fault::JobsNotJoined)
            },
        },
{
    if raw.len() == 0 {
        return Err(InvocationError::NoTask);
    }
    let mut inv = ImplicitTaskInvocation {
        task: raw[0].clone(),
        dry_run: false,
        explain: false,
        force: false,
        no_cache: false,
        watch: false,
        force_isolation: false,
        jobs: None,
        args: Vec::new(),
    };
    let mut passing = false;
    let mut k: usize = 1;
    let ghost words = texts(raw@).skip(1);
    let ghost mut sofar = nothing_read();
    assert(words.take(0) =~= Seq::<Seq<char>>::empty());
    assert(texts(inv.args@) =~= sofar.args);
    while k < raw.len()
        invariant
            1 <= k <= raw.len(),
            words == texts(raw@).skip(1),
            inv.task@ == raw@[0]@,
            reading(words.take(k - 1)) == Ok::<Reading, Fault>(sofar),
            is_reading(inv, sofar),
            passing == sofar.passing,
        decreases raw.len() - k,
    {
        broadcast use crate::text::lemma_texts_push;
        let word = raw[k].as_str();
        proof {
            assert(words.take(k as int).drop_last() =~= words.take(k - 1));
            assert(words.take(k as int).last() == word@);
            if reading(words.take(k as int)) is Err {
                lemma_fault_stays(words, k as int);
            }
        }
        let ghost next = sofar.with(word@);
        if same(word, "--") {
            passing = true;
        } else if passing {
            inv.args.push(word.to_owned());
        } else if same(word, "--dry-run") {
            inv.dry_run = true;
        } else if same(word, "--explain") {
            inv.explain = true;
        } else if same(word, "--force") {
            inv.force = true;
        } else if same(word, "--no-cache") {
            inv.no_cache = true;
        } else if same(word, "--watch") {
            inv.watch = true;
        } else if same(word, "--force-isolation") {
            inv.force_isolation = true;
        } else if let Some(given) = strip_prefix(word, "--jobs=") {
            let v = to_chars(given.as_str());
            match parse_usize(&v) {
                Some(n) => {
                    inv.jobs = Some(
                        if n == 0 {
                            1
                        } else {
                            n
                        },
                    );
                },
                None => {
                    return Err(InvocationError::BadJobs { value: given });
                },
            }
        } else if same(word, "--jobs") {
            return Err(InvocationError::JobsNotJoined { task: inv.task });
        } else {
            inv.args.push(word.to_owned());
        }
        proof {
            sofar = next->Ok_0;
        }
        k += 1;
    }
    assert(words.take(raw.len() - 1) =~= words);
    Ok(inv)
}

/// Once the words go to the task, each of them does, but for a `--`.
proof fn lemma_passing(before: Seq<Seq<char>>, after: Seq<Seq<char>>)
    requires
        reading(before) matches Ok(r) && r.passing,
        !after.contains("--"@),
    ensures
        reading(before + after) == Ok::<Reading, Fault>(
            Reading {
                args: reading(before)->Ok_0.args + after,
                ..reading(before)->Ok_0
            },
        ),
    decreases after.len(),
{
    let r = reading(before)->Ok_0;
    if after.len() == 0 {
        assert(before + after =~= before);
        assert(r.args + after =~= r.args);
    } else {
        let front = after.drop_last();
        assert(!front.contains("--"@)) by {
            if front.contains("--"@) {
                let i = choose|i: int| 0 <= i < front.len() && front[i] == "--"@;
                assert(after[i] == "--"@);
            }
        }
        lemma_passing(before, front);
        assert((before + after).drop_last() =~= before + front);
        assert((before + after).last() == after.last());
        assert(after[after.len() - 1] != "--"@);
        assert((r.args + front).push(after.last()) =~= r.args + after);
    }
}

/// Behind a `--` every word goes to the task as it is, flags among them; what
/// was read before stands.
pub proof fn law_separator_passes_words_on(before: Seq<Seq<char>>, after: Seq<Seq<char>>)
    requires
        reading(before) is Ok,
        !after.contains("--"@),
    ensures
        reading(before.push("--"@) + after) == Ok::<Reading, Fault>(
            Reading {
                args: reading(before)->Ok_0.args + after,
                passing: true,
                ..reading(before)->Ok_0
            },
        ),
{
    let first = before.push("--"@);
    assert(first.drop_last() =~= before);
    assert(first.last() == "--"@);
    lemma_passing(first, after);
}

/// However many jobs are asked for, at least one is granted.
pub proof fn law_jobs_are_positive(words: Seq<Seq<char>>)
    ensures
        reading(words) matches Ok(r) ==> (r.jobs matches Some(n) ==> n >= 1),
    decreases words.len(),
{
    if words.len() > 0 {
        law_jobs_are_positive(words.drop_last());
    }
}

/// What is asked for of a run.
#[derive(Debug, Clone)]
pub struct RunFlags {
    pub dry_run: bool,
    pub explain: bool,
    pub force: bool,
    pub no_cache: bool,
    pub watch: bool,
    pub force_isolation: bool,
    pub jobs: Option<usize>,
    pub args: Vec<String>,
}

impl ImplicitTaskInvocation {
    /// What is asked for, without the task's name.
    pub fn flags(self) -> (r: RunFlags)
        ensures
            r == (RunFlags {
                dry_run: self.dry_run,
                explain: self.explain,
                force: self.force,
                no_cache: self.no_cache,
                watch: self.watch,
                force_isolation: self.force_isolation,
                jobs: self.jobs,
                args: self.args,
            }),
    {
        RunFlags {
            dry_run: self.dry_run,
            explain: self.explain,
            force: self.force,
            no_cache: self.no_cache,
            watch: self.watch,
            force_isolation: self.force_isolation,
            jobs: self.jobs,
            args: self.args,
        }
    }
}

/// The options `r` of a run for which `flags` were given, where `jobs` tasks run
/// at once unless another number is asked for.
pub open spec fn are_run_options(r: RunOptions, flags: RunFlags, jobs: int) -> bool {
    &&& r.dry_run == flags.dry_run
    &&& r.explain == flags.explain
    &&& r.force == flags.force
    &&& r.no_cache == flags.no_cache
    &&& r.watch == flags.watch
    &&& r.force_isolation == flags.force_isolation
    &&& r.passthrough_args == flags.args
    &&& r.force_tasks@.len() == 0
    &&& !r.capture_output
    &&& r.jobs == match flags.jobs {
        Some(j) => at_least_one(j as int),
        None => jobs,
    }
}

/// The options of a run that starts from a plain run: as many tasks run at once
/// as are asked for, and at least one.
pub fn run_options_over(base: RunOptions, flags: RunFlags) -> (r: RunOptions)
    requires
        base.is_plain(base.jobs as int),
    ensures
        are_run_options(r, flags, base.jobs as int),
{
    let jobs: usize = match flags.jobs {
        Some(j) => if j == 0 {
            1
        } else {
            j
        },
        None => base.jobs,
    };
    RunOptions {
        dry_run: flags.dry_run,
        force: flags.force,
        no_cache: flags.no_cache,
        explain: flags.explain,
        watch: flags.watch,
        force_isolation: flags.force_isolation,
        jobs,
        passthrough_args: flags.args,
        force_tasks: base.force_tasks,
        capture_output: base.capture_output,
    }
}

/// The options of a run. When nothing else is asked for, as many tasks run at
/// once as the machine can run, and at least one.
pub fn run_options(flags: RunFlags) -> (r: RunOptions)
    ensures
        exists|cpus: usize| #[trigger]
            may_count(cpus) && are_run_options(r, flags, at_least_one(cpus as int)),
{
    let base = RunOptions::default();
    run_options_over(base, flags)
}

/// What is said when the dashboard is asked for together with something that it
/// cannot show; `None` when it is not.
pub fn tui_conflict(flags: &RunFlags) -> (r: Option<String>)
    ensures
        match r {
            Some(text) => (flags.dry_run || flags.explain || flags.watch) && text@
                == "--tui cannot be combined with --dry-run, --explain, or --watch"@,
            None => !flags.dry_run && !flags.explain && !flags.watch,
        },
{
    if flags.dry_run || flags.explain || flags.watch {
        Some("--tui cannot be combined with --dry-run, --explain, or --watch".to_owned())
    } else {
        None
    }
}

/// Whether the doctor repairs what it finds: unless it is told not to, and in
/// any case when it is told to.
pub fn effective_repair(repair: bool, no_repair: bool) -> (r: bool)
    ensures
        r == (repair || !no_repair),
{
    repair || !no_repair
}

/// What is said of a theme's name that is not known, and where it came from.
pub open spec fn theme_error(source: Seq<char>, given: Seq<char>) -> Seq<char> {
    "parsing "@ + source + " value '"@ + given + "': unknown theme '"@ + crate::theme::lookup(given)
        + "'; expected one of default, dark, light, high-contrast, auto"@
}

/// The theme of a name that was given in `source`.
fn named_theme(source: &str, given: &str) -> (r: Result<Theme, String>)
    ensures
        match r {
            Ok(theme) => theme_of(given@) == Some(theme),
            Err(text) => theme_of(given@) is None && text@ == theme_error(source@, given@),
        },
{
    match Theme::from_name(given) {
        Ok(theme) => Ok(theme),
        Err(e) => {
            let mut text = "parsing ".to_owned();
            text.append(source);
            text.append(" value '");
            text.append(given);
            text.append("': ");
            let why = e.message();
            text.append(why.as_str());
            proof {
                reveal_strlit("': ");
                reveal_strlit("unknown theme '");
                reveal_strlit("': unknown theme '");
                assert("': unknown theme '"@ =~= "': "@ + "unknown theme '"@);
                assert(text@ =~= theme_error(source@, given@));
            }
            Err(text)
        },
    }
}

/// The theme to draw with: the one that the flag names, else the one that the
/// environment names unless it is blank, else the default.
pub fn resolve_theme(flag: Option<&str>, env: Option<&str>) -> (r: Result<Theme, String>)
    ensures
        match flag {
            Some(given) => match r {
                Ok(theme) => theme_of(given@) == Some(theme),
                Err(text) => theme_of(given@) is None && text@ == theme_error("--theme"@, given@),
            },
            None => match env {
                Some(given) => if crate::text::trim(given@).len() == 0 {
                    r == Ok::<Theme, String>(Theme::Default)
                } else {
                    match r {
                        Ok(theme) => theme_of(given@) == Some(theme),
                        Err(text) => theme_of(given@) is None && text@ == theme_error(
                            "BROSKI_THEME"@,
                            given@,
                        ),
                    }
                },
                None => r == Ok::<Theme, String>(Theme::Default),
            },
        },
{
    if let Some(given) = flag {
        return named_theme("--theme", given);
    }
    if let Some(given) = env {
        let blank = crate::text::trimmed(given);
        if blank.as_str().unicode_len() > 0 {
            return named_theme("BROSKI_THEME", given);
        }
    }
    Ok(Theme::Default)
}

/// Words up to a `--`: each flag is set exactly when its word is among them, and every word
/// that is none of the flags is handed to the task, in order.
pub proof fn law_flags_are_taken_out(words: Seq<Seq<char>>)
    requires
        !words.contains("--"@),
        reading(words) is Ok,
    ensures
        reading(words) matches Ok(read) && {
            &&& read.dry_run <==> words.contains("--dry-run"@)
            &&& read.explain <==> words.contains("--explain"@)
            &&& read.force <==> words.contains("--force"@)
            &&& read.no_cache <==> words.contains("--no-cache"@)
            &&& read.watch <==> words.contains("--watch"@)
            &&& read.force_isolation <==> words.contains("--force-isolation"@)
            &&& !read.passing
            &&& read.args == words.filter(|word: Seq<char>| !is_flag_word(word))
            &&& forall|i: int|
                0 <= i < words.len() ==> (#[trigger] words[i]) != "--jobs"@
            &&& read.jobs is Some <==> exists|i: int|
                0 <= i < words.len() && starts_with(#[trigger] words[i], "--jobs="@)
        },
    decreases words.len(),
{
    reveal(Seq::filter);
    lemma_flag_words();
    if words.len() > 0 {
        let front = words.drop_last();
        let last = words.last();
        assert(words[words.len() - 1] == last);
        lemma_contains_drop_last(words);
        assert(last != "--"@);
        law_flags_are_taken_out(front);
        let before = reading(front)->Ok_0;
        assert forall|i: int| 0 <= i < words.len() implies (#[trigger] words[i]) != "--jobs"@ by {
            if i < front.len() {
                assert(front[i] == words[i]);
            } else {
                lemma_not_joined(last);
            }
        }
        if exists|i: int| 0 <= i < front.len() && starts_with(#[trigger] front[i], "--jobs="@) {
            let i = choose|i: int| 0 <= i < front.len() && starts_with(#[trigger] front[i], "--jobs="@);
            assert(starts_with(words[i], "--jobs="@));
        }
        if exists|i: int| 0 <= i < words.len() && starts_with(#[trigger] words[i], "--jobs="@) {
            let i = choose|i: int| 0 <= i < words.len() && starts_with(#[trigger] words[i], "--jobs="@);
            if i < front.len() {
                assert(starts_with(front[i], "--jobs="@));
            } else {
                lemma_jobs_word(last);
            }
        }
        if starts_with(last, "--jobs="@) {
            lemma_jobs_word(last);
        }
        assert(before.with(last) == reading(words));
    } else {
        assert(words.filter(|word: Seq<char>| !is_flag_word(word)) =~= Seq::<Seq<char>>::empty());
    }
}

/// Whether the word is a flag of the run: one of the six, or a number of jobs.
pub open spec fn is_flag_word(word: Seq<char>) -> bool {
    ||| word == "--dry-run"@
    ||| word == "--explain"@
    ||| word == "--force"@
    ||| word == "--no-cache"@
    ||| word == "--watch"@
    ||| word == "--force-isolation"@
    ||| starts_with(word, "--jobs="@)
}

/// The flags are different words.
proof fn lemma_flag_words()
    ensures
        "--dry-run"@ == seq!['-', '-', 'd', 'r', 'y', '-', 'r', 'u', 'n'],
        "--explain"@ == seq!['-', '-', 'e', 'x', 'p', 'l', 'a', 'i', 'n'],
        "--force"@ == seq!['-', '-', 'f', 'o', 'r', 'c', 'e'],
        "--no-cache"@ == seq!['-', '-', 'n', 'o', '-', 'c', 'a', 'c', 'h', 'e'],
        "--watch"@ == seq!['-', '-', 'w', 'a', 't', 'c', 'h'],
        "--jobs"@ == seq!['-', '-', 'j', 'o', 'b', 's'],
        "--jobs="@ == seq!['-', '-', 'j', 'o', 'b', 's', '='],
        "--"@ == seq!['-', '-'],
        "--force-isolation"@.len() == 17,
        "--force-isolation"@[2] == 'f',
{
    reveal_strlit("--dry-run");
    reveal_strlit("--explain");
    reveal_strlit("--force");
    reveal_strlit("--no-cache");
    reveal_strlit("--watch");
    reveal_strlit("--jobs");
    reveal_strlit("--jobs=");
    reveal_strlit("--");
    reveal_strlit("--force-isolation");
    assert("--dry-run"@ =~= seq!['-', '-', 'd', 'r', 'y', '-', 'r', 'u', 'n']);
    assert("--explain"@ =~= seq!['-', '-', 'e', 'x', 'p', 'l', 'a', 'i', 'n']);
    assert("--force"@ =~= seq!['-', '-', 'f', 'o', 'r', 'c', 'e']);
    assert("--no-cache"@ =~= seq!['-', '-', 'n', 'o', '-', 'c', 'a', 'c', 'h', 'e']);
    assert("--watch"@ =~= seq!['-', '-', 'w', 'a', 't', 'c', 'h']);
    assert("--jobs"@ =~= seq!['-', '-', 'j', 'o', 'b', 's']);
    assert("--jobs="@ =~= seq!['-', '-', 'j', 'o', 'b', 's', '=']);
    assert("--"@ =~= seq!['-', '-']);
}

/// What is in a list is its last word or in the rest.
proof fn lemma_contains_drop_last(words: Seq<Seq<char>>)
    requires
        words.len() > 0,
    ensures
        forall|word: Seq<char>| #[trigger]
            words.contains(word) <==> words.drop_last().contains(word) || word == words.last(),
{
    let front = words.drop_last();
    assert forall|word: Seq<char>| #[trigger] words.contains(word) <==> front.contains(word) || word
        == words.last() by {
        if words.contains(word) && word != words.last() {
            let i = choose|i: int| 0 <= i < words.len() && words[i] == word;
            assert(front[i] == word);
        }
        if front.contains(word) {
            let i = choose|i: int| 0 <= i < front.len() && front[i] == word;
            assert(words[i] == word);
        }
        if word == words.last() {
            assert(words[words.len() - 1] == word);
        }
    }
}

/// A word for a number of jobs is no other flag.
proof fn lemma_jobs_word(word: Seq<char>)
    requires
        starts_with(word, "--jobs="@),
    ensures
        word != "--"@,
        word != "--dry-run"@,
        word != "--explain"@,
        word != "--force"@,
        word != "--no-cache"@,
        word != "--watch"@,
        word != "--force-isolation"@,
        word != "--jobs"@,
{
    lemma_flag_words();
    let head = word.subrange(0, 7);
    assert(head == "--jobs="@);
    assert(head[2] == word[2] && head[2] == 'j');
    assert(word.len() >= 7);
}

/// The word `--jobs` alone stops the reading.
proof fn lemma_not_joined(word: Seq<char>)
    ensures
        word == "--jobs"@ ==> forall|read: Reading| !read.passing ==> (#[trigger] read.with(word)) is Err,
{
    lemma_flag_words();
    if word == "--jobs"@ {
        assert(word[2] == 'j' && word.len() == 6);
        assert(!starts_with(word, "--jobs="@));
    }
}

/// A number of jobs is read as that number, and as one when it is zero; the last one given
/// counts. Anything else behind the equals sign is refused, and so is a number that stands
/// apart.
pub proof fn law_jobs_are_read(before: Seq<Seq<char>>, n: nat, given: Seq<char>)
    requires
        reading(before) matches Ok(read) && !read.passing,
    ensures
        n <= usize::MAX ==> {
            &&& reading(before.push("--jobs="@ + dec(n))) matches Ok(read) && read.jobs == Some(
                if n == 0 {
                    1int
                } else {
                    n as int
                },
            )
        },
        n > usize::MAX ==> reading(before.push("--jobs="@ + dec(n))) == Err::<Reading, Fault>(
            Fault::BadJobs(dec(n)),
        ),
        given.len() == 0 || (exists|i: int|
            0 <= i < given.len() && !('0' <= #[trigger] given[i] && given[i] <= '9') && (i > 0
                || given[i] != '+')) ==> reading(before.push("--jobs="@ + given)) == Err::<
            Reading,
            Fault,
        >(Fault::BadJobs(given)),
        reading(before.push("--jobs"@)) == Err::<Reading, Fault>(Fault::JobsNotJoined),
{
    lemma_flag_words();
    law_decimal_reads_back(n);
    let (a, b) = ("--jobs="@ + dec(n), "--jobs="@ + given);
    assert(a.subrange(0, 7) =~= "--jobs="@);
    assert(b.subrange(0, 7) =~= "--jobs="@);
    assert(a.skip(7) =~= dec(n));
    assert(b.skip(7) =~= given);
    lemma_jobs_word(a);
    lemma_jobs_word(b);
    assert(before.push(a).drop_last() =~= before);
    assert(before.push(b).drop_last() =~= before);
    assert(before.push("--jobs"@).drop_last() =~= before);
    lemma_not_joined("--jobs"@);
    assert(dec(n)[0] != '+');
    if exists|i: int|
        0 <= i < given.len() && !('0' <= #[trigger] given[i] && given[i] <= '9') && (i > 0 || given[i]
            != '+') {
        let i = choose|i: int|
            0 <= i < given.len() && !('0' <= #[trigger] given[i] && given[i] <= '9') && (i > 0
                || given[i] != '+');
        let d = unsigned_digits(given);
        if given[0] == '+' {
            assert(d[i - 1] == given[i]);
            assert(!crate::number::is_digit(d[i - 1]));
        } else {
            assert(d[i] == given[i]);
            assert(!crate::number::is_digit(d[i]));
        }
    }
    assert("--jobs"@ != "--"@ && "--jobs"@.len() == 6);
    assert("--jobs"@[2] == 'j');
}

/// A run is what was asked for: each flag of the command line is the option of that name,
/// the words for the task are its arguments, and at least one task runs at once, as many as
/// were asked for, or as the run has otherwise.
pub proof fn law_options_are_what_was_asked_for(base: RunOptions, flags: RunFlags, r: RunOptions)
    requires
        call_ensures(run_options_over, (base, flags), r),
        base.is_plain(base.jobs as int),
        base.jobs > 0,
    ensures
        r.dry_run == flags.dry_run,
        r.explain == flags.explain,
        r.force == flags.force,
        r.no_cache == flags.no_cache,
        r.watch == flags.watch,
        r.force_isolation == flags.force_isolation,
        r.passthrough_args@ == flags.args@,
        r.jobs >= 1,
        flags.jobs matches Some(n) ==> r.jobs == n || n == 0 && r.jobs == 1,
        flags.jobs is None ==> r.jobs == base.jobs,
        r.force_tasks@.len() == 0,
{
}

/// The doctor repairs unless it is told not to; being told to wins.
pub proof fn law_doctor_repairs_by_default(repair: bool, no_repair: bool, r: bool)
    requires
        call_ensures(effective_repair, (repair, no_repair), r),
    ensures
        !no_repair ==> r,
        repair ==> r,
        no_repair && !repair ==> !r,
{
}

/// The theme comes from the flag if there is one, else from the environment unless that is
/// blank, else it is the default.
pub proof fn law_flag_decides_the_theme(
    flag: Option<&str>,
    env: Option<&str>,
    r: Result<Theme, String>,
    theme: Theme,
)
    requires
        call_ensures(resolve_theme, (flag, env), r),
    ensures
        flag matches Some(name) && name@ == theme.label() ==> r == Ok::<Theme, String>(theme),
        flag is None && (env matches Some(name) && name@ == theme.label()) ==> r == Ok::<
            Theme,
            String,
        >(theme),
        flag is None && env is None ==> r == Ok::<Theme, String>(Theme::Default),
        flag is None && (env matches Some(name) && name@.len() == 0) ==> r == Ok::<Theme, String>(
            Theme::Default,
        ),
        flag matches Some(name) && theme_of(name@) is None ==> r is Err,
{
    crate::theme::law_name_finds_theme(theme);
    if flag is None {
        if let Some(name) = env {
            if name@.len() == 0 {
                assert(crate::text::trim(name@) =~= name@);
            }
            if name@ == theme.label() {
                crate::theme::law_labels_are_not_blank(theme);
            }
        }
    }
}

/// A command line starts with the task. Each flag of the run is set exactly when its word
/// stands behind the task; the words that are no flags go to the task. Without a word there is
/// no task, which is the one error that the first word decides.
pub proof fn law_command_line_is_read(raw: Vec<String>, r: Result<ImplicitTaskInvocation, InvocationError>)
    requires
        call_ensures(parse_implicit_task_args, (raw,), r),
    ensures
        raw@.len() == 0 <==> r == Err::<ImplicitTaskInvocation, InvocationError>(InvocationError::NoTask),
        r matches Ok(i) ==> {
            let words = texts(raw@).skip(1);
            &&& i.task@ == raw@[0]@
            &&& !words.contains("--"@) ==> {
                &&& i.dry_run <==> words.contains("--dry-run"@)
                &&& i.explain <==> words.contains("--explain"@)
                &&& i.force <==> words.contains("--force"@)
                &&& i.no_cache <==> words.contains("--no-cache"@)
                &&& i.watch <==> words.contains("--watch"@)
                &&& i.force_isolation <==> words.contains("--force-isolation"@)
                &&& texts(i.args@) == words.filter(|word: Seq<char>| !is_flag_word(word))
            }
        },
        raw@.len() > 0 && r is Ok ==> reading(texts(raw@).skip(1)) is Ok,
        raw@.len() > 0 && r is Err ==> reading(texts(raw@).skip(1)) is Err,
        r matches Err(InvocationError::JobsNotJoined { task }) ==> task@ == raw@[0]@,
        raw@.len() > 0 ==> match reading(texts(raw@).skip(1)) {
            Ok(read) => r matches Ok(i) && {
                &&& texts(i.args@) == read.args
                &&& read.jobs is Some <==> i.jobs is Some
                &&& i.jobs matches Some(n) ==> read.jobs == Some(n as int)
                &&& i.dry_run == read.dry_run && i.explain == read.explain && i.force == read.force
                &&& i.no_cache == read.no_cache && i.watch == read.watch
                &&& i.force_isolation == read.force_isolation
            },
            Err(Fault::BadJobs(given)) => r matches Err(InvocationError::BadJobs { value }) && value@ == given,
            Err(Fault::JobsNotJoined) => r matches Err(InvocationError::JobsNotJoined { task }) && task@
                == raw@[0]@,
        },
{
    if let Ok(i) = r {
        let words = texts(raw@).skip(1);
        if !words.contains("--"@) {
            law_flags_are_taken_out(words);
        }
    }
}

/// What was read is handed on as it was read; the dashboard cannot be combined with a dry run,
/// an explanation or a watch, and with anything else it can.
pub proof fn law_what_was_read_is_asked_for(
    i: ImplicitTaskInvocation,
    flags: RunFlags,
    conflict: Option<String>,
    options: RunOptions,
)
    requires
        call_ensures(ImplicitTaskInvocation::flags, (i,), flags),
        call_ensures(tui_conflict, (&flags,), conflict),
        call_ensures(run_options, (flags,), options),
    ensures
        options.dry_run == i.dry_run,
        options.explain == i.explain,
        options.force == i.force,
        options.no_cache == i.no_cache,
        options.watch == i.watch,
        options.force_isolation == i.force_isolation,
        options.passthrough_args@ == i.args@,
        i.jobs matches Some(n) ==> options.jobs == n || n == 0 && options.jobs == 1,
        options.jobs >= 1,
        conflict is Some <==> i.dry_run || i.explain || i.watch,
        conflict matches Some(text) ==> text@
            == "--tui cannot be combined with --dry-run, --explain, or --watch"@,
{
}

/// What is said of a command line that is refused names what is wrong with it.
pub proof fn law_invocation_errors_are_told(value: String, task: String, a: String, b: String, c: String)
    requires
        call_ensures(InvocationError::message, (&InvocationError::NoTask,), a),
        call_ensures(InvocationError::message, (&(InvocationError::BadJobs { value }),), b),
        call_ensures(InvocationError::message, (&(InvocationError::JobsNotJoined { task }),), c),
    ensures
        a@ == "implicit task execution expected a task name"@,
        b@ == "invalid value for --jobs: "@ + value@,
        c@ == "implicit task invocation requires --jobs=<n>; use explicit `broski run "@ + task@
            + " --jobs <n>` for space-separated jobs"@,
{
}

/// A name that no theme has is an error that says where it was given, what was given, and
/// which names there are. The flag is read where there is one, and the environment only where
/// there is none.
pub proof fn law_unknown_theme_is_told(flag: Option<&str>, env: Option<&str>, r: Result<Theme, String>)
    requires
        call_ensures(resolve_theme, (flag, env), r),
    ensures
        flag matches Some(given) ==> {
            &&& theme_of(given@) is None ==> (r matches Err(text) && text@ == "parsing "@ + "--theme"@
                + " value '"@ + given@ + "': unknown theme '"@ + crate::text::lower(
                crate::text::trim(given@),
            ) + "'; expected one of default, dark, light, high-contrast, auto"@)
            &&& theme_of(given@) matches Some(theme) ==> r == Ok::<Theme, String>(theme)
        },
        flag is None ==> (env matches Some(given) ==> crate::text::trim(given@).len() > 0 ==> {
            &&& theme_of(given@) is None ==> (r matches Err(text) && text@ == "parsing "@ + "BROSKI_THEME"@
                + " value '"@ + given@ + "': unknown theme '"@ + crate::text::lower(
                crate::text::trim(given@),
            ) + "'; expected one of default, dark, light, high-contrast, auto"@)
            &&& theme_of(given@) matches Some(theme) ==> r == Ok::<Theme, String>(theme)
        }),
{
}

} // verus!
