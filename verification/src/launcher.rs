//! The launcher screen: a filtered list of tasks above an input line.
//!
//! The screen is a value. Each key is folded into it by
//! [`LauncherState::apply`], which hands back what the application is to do
//! next.

use vstd::prelude::*;
use crate::text::{
    contains, find, from_chars, has_white, is_white, law_solid_text_is_one_word,
    law_white_space_parts_words, lemma_word_is_solid, lists, lower, lower_chars, occurs_at,
    opt_text, texts, to_chars, trim, trim_bounds, white, word_len, words, words_of,
};
use crate::theme::Theme;
use crate::time::{duration_text, format_dur, Duration};

verus! {

/// What the application is to do after an action.
#[derive(Debug, Clone, PartialEq, Eq)]
pub enum LauncherDecision {
    /// Stay on the launcher screen.
    Continue,
    /// Run the command, then return to the screen.
    Run(ParsedCommand),
    /// Leave the application.
    Quit,
    /// Draw with another theme.
    SwitchTheme(Theme),
    /// Read the file that declares the tasks again.
    Refresh,
    /// Shrink the cache to this many megabytes.
    PruneCache(u64),
}

/// A target and the arguments that are handed to it.
#[derive(Debug, Clone, PartialEq, Eq)]
pub struct ParsedCommand {
    pub target: String,
    pub passthrough: Vec<String>,
}

/// How a run ended.
#[derive(Debug, Clone, Copy, PartialEq, Eq, Structural)]
pub enum RunOutcome {
    Success,
    Failed,
    Cancelled,
}

/// One run of the session.
#[derive(Debug, Clone, PartialEq, Eq)]
pub struct RunHistoryEntry {
    pub target: String,
    pub outcome: RunOutcome,
    pub duration: Duration,
}

/// One key or directive.
#[derive(Debug, Clone, Copy, PartialEq, Eq, Structural)]
pub enum LauncherAction {
    InsertChar(char),
    Backspace,
    Up,
    Down,
    Home,
    End,
    Enter,
    /// Clear the input line and stay on the screen.
    ClearInput,
    /// Leave, if the input line is empty; otherwise clear it.
    Quit,
    /// Complete the input line from the highlighted task.
    Complete,
    Ignore,
}

/// How many runs the session remembers.
pub const HISTORY_CAPACITY: usize = 16;

/// The launcher screen.
#[derive(Debug, Clone)]
pub struct LauncherState {
    /// What the user has typed.
    pub input: String,
    /// The tasks that can be picked, in the order in which they are listed.
    pub all_tasks: Vec<String>,
    /// The highlighted task, a position in the filtered list.
    pub selected: Option<usize>,
    /// The runs of this session, the newest first.
    pub history: Vec<RunHistoryEntry>,
    /// A message that is shown until the next action.
    pub status: Option<String>,
}

/// The content of a [`LauncherState`].
pub ghost struct Screen {
    pub input: Seq<char>,
    pub all_tasks: Seq<Seq<char>>,
    pub selected: Option<usize>,
    pub history: Seq<RunHistoryEntry>,
    pub status: Option<Seq<char>>,
}

/// The content of a [`ParsedCommand`].
pub ghost struct Command {
    pub target: Seq<char>,
    pub passthrough: Seq<Seq<char>>,
}

/// The content of a [`LauncherDecision`].
pub ghost enum Decision {
    Continue,
    Run(Command),
    Quit,
    SwitchTheme(Theme),
    Refresh,
    PruneCache(u64),
}

impl View for ParsedCommand {
    type V = Command;

    open spec fn view(&self) -> Command {
        Command { target: self.target@, passthrough: texts(self.passthrough@) }
    }
}

impl View for LauncherDecision {
    type V = Decision;

    open spec fn view(&self) -> Decision {
        match self {
            LauncherDecision::Continue => Decision::Continue,
            LauncherDecision::Run(c) => Decision::Run(c@),
            LauncherDecision::Quit => Decision::Quit,
            LauncherDecision::SwitchTheme(theme) => Decision::SwitchTheme(*theme),
            LauncherDecision::Refresh => Decision::Refresh,
            LauncherDecision::PruneCache(mb) => Decision::PruneCache(*mb),
        }
    }
}

impl View for LauncherState {
    type V = Screen;

    open spec fn view(&self) -> Screen {
        Screen {
            input: self.input@,
            all_tasks: texts(self.all_tasks@),
            selected: self.selected,
            history: self.history@,
            status: opt_text(self.status),
        }
    }
}

/// The views of a list of string slices.
pub open spec fn slices(v: Seq<&str>) -> Seq<Seq<char>> {
    Seq::new(v.len(), |i: int| v[i]@)
}

/// Whether a free-standing `--` stands at position `i` of `s`: one with white
/// space, or an end of `s`, on either side.
pub open spec fn dashes_at(s: Seq<char>, i: int) -> bool {
    &&& 0 <= i
    &&& i + 2 <= s.len()
    &&& s[i] == '-'
    &&& s[i + 1] == '-'
    &&& i == 0 || is_white(s[i - 1])
    &&& i + 2 == s.len() || is_white(s[i + 2])
}

/// The first position from `i` on at which a free-standing `--` stands in `s`,
/// or the length of `s`.
pub open spec fn dashes_from(s: Seq<char>, i: int) -> int
    decreases s.len() - i,
{
    if i >= s.len() {
        s.len() as int
    } else if dashes_at(s, i) {
        i
    } else {
        dashes_from(s, i + 1)
    }
}

/// The position of the first free-standing `--` in `s`, or the length of `s`.
pub open spec fn cut(s: Seq<char>) -> int {
    dashes_from(s, 0)
}

proof fn lemma_dashes_from(s: Seq<char>, i: int)
    requires
        0 <= i <= s.len(),
    ensures
        i <= dashes_from(s, i) <= s.len(),
        dashes_from(s, i) < s.len() ==> dashes_at(s, dashes_from(s, i)),
        forall|j: int| i <= j < dashes_from(s, i) ==> !dashes_at(s, j),
    decreases s.len() - i,
{
    if i < s.len() && !dashes_at(s, i) {
        lemma_dashes_from(s, i + 1);
    }
}

/// The first free-standing `--` from `i` on is where one stands with none before
/// it.
proof fn lemma_dashes_found(s: Seq<char>, i: int, k: int)
    requires
        0 <= i <= k <= s.len(),
        k < s.len() ==> dashes_at(s, k),
        forall|j: int| i <= j < k ==> !dashes_at(s, j),
    ensures
        dashes_from(s, i) == k,
    decreases s.len() - i,
{
    if i < k {
        lemma_dashes_found(s, i + 1, k);
    }
}

/// The position of the first free-standing `--`, or the length of the text.
fn find_dashes(v: &Vec<char>) -> (r: usize)
    ensures
        r == cut(v@),
        r <= v.len(),
        r < v.len() ==> r + 2 <= v.len(),
{
    let n: usize = v.len();
    let mut i: usize = 0;
    while i < n
        invariant
            n == v.len(),
            i <= n,
            cut(v@) == dashes_from(v@, i as int),
        decreases n - i,
    {
        if n - i >= 2 && v[i] == '-' && v[i + 1] == '-' && (i == 0 || white(v[i - 1])) && (n - i == 2
            || white(v[i + 2])) {
            assert(dashes_at(v@, i as int));
            return i;
        }
        i += 1;
    }
    n
}

/// What the task list is filtered by: the typed text up to a free-standing
/// `--`, without white space around it.
pub open spec fn needle(input: Seq<char>) -> Seq<char> {
    trim(input.take(cut(input)))
}

/// What the task list is filtered by.
pub fn filter_needle(input: &str) -> (r: String)
    ensures
        r@ == needle(input@),
{
    let v = to_chars(input);
    let i: usize = find_dashes(&v);
    let (a, b) = trim_bounds(&v, 0, i);
    assert(v@.subrange(0, i as int) =~= v@.take(i as int));
    from_chars(&v, a, b)
}

/// A free-standing `--` and whatever follows it are left out of the filter.
pub proof fn law_arguments_leave_the_filter(text: Seq<char>, rest: Seq<char>)
    requires
        cut(text) == text.len(),
    ensures
        needle(text) == trim(text),
        needle(text + " --"@) == trim(text),
        needle(text + " -- "@ + rest) == trim(text),
{
    reveal_strlit(" --");
    reveal_strlit(" -- ");
    assert(text.take(text.len() as int) =~= text);
    assert((text + " --"@).take(text.len() as int) =~= text);
    assert((text + " -- "@ + rest).take(text.len() as int) =~= text);
    lemma_dashes_behind(text, text + " --"@);
    lemma_dashes_behind(text, text + " -- "@ + rest);
}

/// A text without a free-standing `--` of its own is cut at one that is set
/// behind it.
proof fn lemma_dashes_behind(text: Seq<char>, whole: Seq<char>)
    requires
        cut(text) == text.len(),
        whole.len() >= text.len() + 3,
        whole.take(text.len() as int) == text,
        whole[text.len() as int] == ' ',
        dashes_at(whole, text.len() as int + 1),
    ensures
        needle(whole) == trim(text),
{
    let n = text.len() as int;
    lemma_dashes_from(text, 0);
    assert forall|j: int| 0 <= j < n + 1 implies !dashes_at(whole, j) by {
        if j < n {
            assert(!dashes_at(text, j));
            assert(text[j] == whole[j]);
            if j > 0 {
                assert(text[j - 1] == whole[j - 1]);
            }
            if j + 1 < n {
                assert(text[j + 1] == whole[j + 1]);
            }
            if j + 2 < n {
                assert(text[j + 2] == whole[j + 2]);
            }
        }
    }
    lemma_dashes_found(whole, 0, n + 1);
    assert(whole.take(n + 1) =~= text.push(' '));
    lemma_trim_drops_blank(text);
}

/// White space that is set behind a text is trimmed away again.
proof fn lemma_trim_drops_blank(s: Seq<char>)
    ensures
        trim(s.push(' ')) == trim(s),
    decreases s.len(),
{
    let p = s.push(' ');
    if s.len() > 0 && is_white(s[0]) {
        assert(p.drop_first() =~= s.drop_first().push(' '));
        lemma_trim_drops_blank(s.drop_first());
    } else if s.len() > 0 {
        assert(p.drop_last() =~= s);
    } else {
        assert(p.drop_first() =~= s);
    }
}

/// The tasks of `all` whose name contains `part` when case is ignored.
pub open spec fn matching(all: Seq<Seq<char>>, part: Seq<char>) -> Seq<Seq<char>>
    decreases all.len(),
{
    if all.len() == 0 {
        Seq::empty()
    } else {
        let front = matching(all.drop_last(), part);
        if contains(lower(all.last()), lower(part)) {
            front.push(all.last())
        } else {
            front
        }
    }
}

/// Every text contains the empty one, so an empty filter lists every task.
pub proof fn law_empty_filter_lists_all(all: Seq<Seq<char>>)
    ensures
        matching(all, Seq::empty()) == all,
    decreases all.len(),
{
    if all.len() > 0 {
        law_empty_filter_lists_all(all.drop_last());
        let s = lower(all.last());
        assert(lower(Seq::<char>::empty()) =~= Seq::<char>::empty());
        assert(s.subrange(0, 0) =~= Seq::<char>::empty());
        assert(occurs_at(s, Seq::empty(), 0));
        assert(all.drop_last().push(all.last()) =~= all);
    } else {
        assert(matching(all, Seq::empty()) =~= all);
    }
}

/// Whatever the filter, the list holds tasks of the whole list only, and no
/// more of them.
pub proof fn law_filter_lists_known_tasks(all: Seq<Seq<char>>, part: Seq<char>)
    ensures
        matching(all, part).len() <= all.len(),
        forall|i: int|
            0 <= i < matching(all, part).len() ==> all.contains(#[trigger] matching(all, part)[i]),
    decreases all.len(),
{
    if all.len() > 0 {
        law_filter_lists_known_tasks(all.drop_last(), part);
        assert forall|i: int| 0 <= i < matching(all, part).len() implies all.contains(
            #[trigger] matching(all, part)[i],
        ) by {
            let front = matching(all.drop_last(), part);
            if i < front.len() {
                assert(all.drop_last().contains(front[i]));
                let j = choose|j: int| 0 <= j < all.drop_last().len() && all.drop_last()[j] == front[i];
                assert(all[j] == front[i]);
            } else {
                assert(all[all.len() - 1] == all.last());
            }
        }
    }
}

impl Screen {
    /// The tasks that are listed for what has been typed.
    pub open spec fn filtered(self) -> Seq<Seq<char>> {
        matching(self.all_tasks, needle(self.input))
    }

    /// The name of the highlighted task.
    pub open spec fn highlighted(self) -> Option<Seq<char>> {
        match self.selected {
            Some(i) if i < self.filtered().len() => Some(self.filtered()[i as int]),
            _ => None,
        }
    }

    /// The command that the typed text stands for. The first word before a
    /// free-standing `--` is the target; the other words before it, and those
    /// after it, are its arguments. Without such a word the target is the
    /// highlighted task.
    pub open spec fn command(self) -> Option<Command> {
        let i = cut(self.input);
        let head = words(self.input.take(i));
        let tail = if i < self.input.len() {
            words(self.input.skip(i + 2))
        } else {
            Seq::empty()
        };
        if head.len() > 0 {
            Some(Command { target: head[0], passthrough: head.skip(1) + tail })
        } else {
            match self.highlighted() {
                Some(target) => Some(Command { target, passthrough: tail }),
                None => None,
            }
        }
    }

    /// The screen with the highlight kept within the list.
    pub open spec fn reclamped(self) -> Screen {
        let len = self.filtered().len();
        Screen {
            selected: if len == 0 {
                None
            } else {
                match self.selected {
                    Some(i) if i < len => Some(i),
                    Some(i) => Some((len - 1) as usize),
                    None => Some(0),
                }
            },
            ..self
        }
    }

    /// The highlight is on a task of the list, and missing only when the list
    /// is empty.
    pub open spec fn highlight_ok(self) -> bool {
        match self.selected {
            Some(i) => i < self.filtered().len(),
            None => self.filtered().len() == 0,
        }
    }

    /// The screen and the decision that follow an `Enter`.
    pub open spec fn entered(self) -> (Screen, Decision) {
        match self.command() {
            Some(c) => if self.all_tasks.contains(c.target) {
                (self, Decision::Run(c))
            } else {
                match self.highlighted() {
                    Some(target) => (self, Decision::Run(Command { target, ..c })),
                    None => (
                        Screen {
                            status: Some(
                                "no task matches '"@ + c.target + "' — pick one from the list"@,
                            ),
                            ..self
                        },
                        Decision::Continue,
                    ),
                }
            },
            None => (
                Screen { status: Some("type a task name or pick one with ↑/↓"@), ..self },
                Decision::Continue,
            ),
        }
    }

    /// The screen with an empty input line.
    pub open spec fn cleared(self) -> Screen {
        Screen { input: Seq::empty(), ..self }.reclamped()
    }

    /// The screen and the decision that follow an action on a screen without
    /// a message.
    pub open spec fn acted(self, action: LauncherAction) -> (Screen, Decision) {
        let len = self.filtered().len();
        match action {
            LauncherAction::InsertChar(c) => (
                Screen { input: self.input.push(c), ..self }.reclamped(),
                Decision::Continue,
            ),
            LauncherAction::Backspace => (
                Screen {
                    input: if self.input.len() == 0 {
                        self.input
                    } else {
                        self.input.drop_last()
                    },
                    ..self
                }.reclamped(),
                Decision::Continue,
            ),
            LauncherAction::ClearInput => (
                if self.input.len() == 0 {
                    self
                } else {
                    self.cleared()
                },
                Decision::Continue,
            ),
            LauncherAction::Up => (
                if len == 0 {
                    self
                } else {
                    Screen {
                        selected: match self.selected {
                            Some(i) if i > 0 => Some((i - 1) as usize),
                            _ => Some((len - 1) as usize),
                        },
                        ..self
                    }
                },
                Decision::Continue,
            ),
            LauncherAction::Down => (
                if len == 0 {
                    self
                } else {
                    Screen {
                        selected: match self.selected {
                            Some(i) if i + 1 < len => Some((i + 1) as usize),
                            _ => Some(0),
                        },
                        ..self
                    }
                },
                Decision::Continue,
            ),
            LauncherAction::Home => (
                if len == 0 {
                    self
                } else {
                    Screen { selected: Some(0), ..self }
                },
                Decision::Continue,
            ),
            LauncherAction::End => (
                if len == 0 {
                    self
                } else {
                    Screen { selected: Some((len - 1) as usize), ..self }
                },
                Decision::Continue,
            ),
            LauncherAction::Complete => (
                match self.highlighted() {
                    Some(target) => Screen { input: target, ..self }.reclamped(),
                    None => self,
                },
                Decision::Continue,
            ),
            LauncherAction::Enter => self.entered(),
            LauncherAction::Quit => if self.input.len() == 0 {
                (self, Decision::Quit)
            } else {
                (self.cleared(), Decision::Continue)
            },
            LauncherAction::Ignore => (self, Decision::Continue),
        }
    }

    /// The screen and the decision that follow an action. Any action but an
    /// ignored one takes the message away.
    pub open spec fn step(self, action: LauncherAction) -> (Screen, Decision) {
        if action == LauncherAction::Ignore {
            (self, Decision::Continue)
        } else {
            Screen { status: None, ..self }.acted(action)
        }
    }
}

impl LauncherState {
    /// The screen at the start of a session.
    pub fn new(all_tasks: Vec<String>) -> (r: LauncherState)
        ensures
            r@ == (Screen {
                input: Seq::empty(),
                all_tasks: texts(all_tasks@),
                selected: if all_tasks@.len() == 0 {
                    None
                } else {
                    Some(0)
                },
                history: Seq::empty(),
                status: None,
            }),
            r@.highlight_ok(),
    {
        let selected: Option<usize> = if all_tasks.len() == 0 {
            None
        } else {
            Some(0)
        };
        let r = LauncherState {
            input: String::new(),
            all_tasks,
            selected,
            history: Vec::new(),
            status: None,
        };
        proof {
            let e = Seq::<char>::empty();
            law_empty_filter_lists_all(texts(all_tasks@));
            assert(e.take(0) =~= e);
            assert(trim(e) =~= e);
        }
        r
    }

    /// The tasks that are listed for what has been typed: those whose name
    /// contains it, case ignored. A free-standing `--` and what follows it are
    /// left out of the comparison.
    pub fn filtered_tasks(&self) -> (r: Vec<&str>)
        ensures
            slices(r@) == self@.filtered(),
    {
        let part = filter_needle(self.input.as_str());
        let part = to_chars(part.as_str());
        let part = lower_chars(&part);
        let mut r: Vec<&str> = Vec::new();
        let mut i: usize = 0;
        let ghost all = texts(self.all_tasks@);
        assert(slices(r@) =~= Seq::<Seq<char>>::empty());
        while i < self.all_tasks.len()
            invariant
                i <= self.all_tasks.len(),
                all == texts(self.all_tasks@),
                part@ == lower(needle(self.input@)),
                slices(r@) == matching(all.take(i as int), needle(self.input@)),
            decreases self.all_tasks.len() - i,
        {
            let name = self.all_tasks[i].as_str();
            let chars = to_chars(name);
            let chars = lower_chars(&chars);
            assert(all.take(i + 1).drop_last() =~= all.take(i as int));
            assert(all.take(i + 1).last() == name@);
            let found = find(&chars, &part);
            if found.is_some() {
                let ghost before = r@;
                r.push(name);
                assert(slices(r@) =~= slices(before).push(name@));
            }
            i += 1;
        }
        assert(all.take(all.len() as int) =~= all);
        r
    }

    /// The name of the highlighted task, if any.
    pub fn highlighted_task(&self) -> (r: Option<&str>)
        ensures
            match r {
                Some(name) => self@.highlighted() == Some(name@),
                None => self@.highlighted() is None,
            },
    {
        let filtered = self.filtered_tasks();
        match self.selected {
            Some(i) => if i < filtered.len() {
                assert(slices(filtered@)[i as int] == filtered[i as int]@);
                Some(filtered[i])
            } else {
                None
            },
            None => None,
        }
    }

    /// The command that the typed text stands for.
    pub fn parse_command(&self) -> (r: Option<ParsedCommand>)
        ensures
            match r {
                Some(c) => self@.command() == Some(c@),
                None => self@.command() is None,
            },
    {
        let v = to_chars(self.input.as_str());
        let n: usize = v.len();
        let i: usize = find_dashes(&v);
        assert(v@.subrange(0, i as int) =~= v@.take(i as int));
        let mut head = words_of(&v, 0, i);
        let mut tail: Vec<String> = Vec::new();
        assert(texts(tail@) =~= Seq::<Seq<char>>::empty());
        if i < n {
            assert(v@.subrange(i + 2, n as int) =~= v@.skip(i + 2));
            tail = words_of(&v, i + 2, n);
        }
        if head.len() == 0 {
            return match self.highlighted_task() {
                Some(name) => Some(ParsedCommand { target: name.to_owned(), passthrough: tail }),
                None => None,
            };
        }
        let ghost h = head@;
        let ghost w = tail@;
        let target = head.remove(0);
        head.append(&mut tail);
        assert(texts(head@) =~= texts(h).skip(1) + texts(w));
        Some(ParsedCommand { target, passthrough: head })
    }

    /// Keeps the highlight within the list.
    fn reclamp_selection(&mut self)
        ensures
            final(self)@ == old(self)@.reclamped(),
    {
        let len: usize = self.filtered_tasks().len();
        assert(len == self@.filtered().len());
        if len == 0 {
            self.selected = None;
        } else {
            self.selected = match self.selected {
                Some(i) => Some(
                    if i < len {
                        i
                    } else {
                        len - 1
                    },
                ),
                None => Some(0),
            };
        }
    }

    /// Empties the input line.
    fn clear_input(&mut self)
        ensures
            final(self)@ == old(self)@.cleared(),
    {
        self.input = String::new();
        self.reclamp_selection();
    }

    /// Acts on an `Enter`.
    fn enter(&mut self) -> (r: LauncherDecision)
        ensures
            (final(self)@, r@) == old(self)@.entered(),
    {
        match self.parse_command() {
            Some(cmd) => {
                if lists(&self.all_tasks, cmd.target.as_str()) {
                    return LauncherDecision::Run(cmd);
                }
                if let Some(name) = self.highlighted_task() {
                    let c = ParsedCommand { target: name.to_owned(), passthrough: cmd.passthrough };
                    return LauncherDecision::Run(c);
                }
                let mut status = "no task matches '".to_owned();
                status.append(cmd.target.as_str());
                status.append("' — pick one from the list");
                self.status = Some(status);
                LauncherDecision::Continue
            },
            None => {
                self.status = Some("type a task name or pick one with ↑/↓".to_owned());
                LauncherDecision::Continue
            },
        }
    }

    /// Folds one action into the screen.
    pub fn apply(&mut self, action: LauncherAction) -> (r: LauncherDecision)
        ensures
            (final(self)@, r@) == old(self)@.step(action),
    {
        if action == LauncherAction::Ignore {
            return LauncherDecision::Continue;
        }
        self.status = None;
        match action {
            LauncherAction::InsertChar(c) => {
                self.input.push(c);
                self.reclamp_selection();
                LauncherDecision::Continue
            },
            LauncherAction::Backspace => {
                let dropped = self.input.pop();
                self.reclamp_selection();
                LauncherDecision::Continue
            },
            LauncherAction::ClearInput => {
                if self.input.as_str().unicode_len() > 0 {
                    self.clear_input();
                }
                LauncherDecision::Continue
            },
            LauncherAction::Up => {
                let len: usize = self.filtered_tasks().len();
                assert(len == self@.filtered().len());
                if len > 0 {
                    self.selected = match self.selected {
                        Some(i) => Some(
                            if i > 0 {
                                i - 1
                            } else {
                                len - 1
                            },
                        ),
                        None => Some(len - 1),
                    };
                }
                LauncherDecision::Continue
            },
            LauncherAction::Down => {
                let len: usize = self.filtered_tasks().len();
                assert(len == self@.filtered().len());
                if len > 0 {
                    self.selected = match self.selected {
                        Some(i) => Some(
                            if i < len - 1 {
                                i + 1
                            } else {
                                0
                            },
                        ),
                        None => Some(0),
                    };
                }
                LauncherDecision::Continue
            },
            LauncherAction::Home => {
                let len: usize = self.filtered_tasks().len();
                assert(len == self@.filtered().len());
                if len > 0 {
                    self.selected = Some(0);
                }
                LauncherDecision::Continue
            },
            LauncherAction::End => {
                let len: usize = self.filtered_tasks().len();
                assert(len == self@.filtered().len());
                if len > 0 {
                    self.selected = Some(len - 1);
                }
                LauncherDecision::Continue
            },
            LauncherAction::Complete => {
                let target = match self.highlighted_task() {
                    Some(name) => Some(name.to_owned()),
                    None => None,
                };
                if let Some(target) = target {
                    self.input = target;
                    self.reclamp_selection();
                }
                LauncherDecision::Continue
            },
            LauncherAction::Enter => self.enter(),
            LauncherAction::Quit => {
                if self.input.as_str().unicode_len() == 0 {
                    LauncherDecision::Quit
                } else {
                    self.clear_input();
                    LauncherDecision::Continue
                }
            },
            LauncherAction::Ignore => LauncherDecision::Continue,
        }
    }

    /// Remembers a finished run at the front of the history, drops the oldest
    /// runs beyond the capacity, says so in a message and empties the input
    /// line.
    pub fn record_run(&mut self, target: String, outcome: RunOutcome, duration: Duration)
        ensures
            final(self)@ == (Screen {
                history: remembered(
                    old(self)@.history,
                    RunHistoryEntry { target, outcome, duration },
                ),
                status: Some(
                    outcome_text(outcome) + " "@ + target@ + " in "@ + duration_text(
                        (duration.nanos / 1_000_000) as nat,
                    ),
                ),
                ..old(self)@
            }).cleared(),
    {
        let mut status = match outcome {
            RunOutcome::Success => "ran".to_owned(),
            RunOutcome::Failed => "failed".to_owned(),
            RunOutcome::Cancelled => "cancelled".to_owned(),
        };
        status.append(" ");
        status.append(target.as_str());
        status.append(" in ");
        let took = format_dur(duration);
        status.append(took.as_str());
        self.status = Some(status);
        let ghost h = self.history@;
        self.history.insert(0, RunHistoryEntry { target, outcome, duration });
        if self.history.len() > HISTORY_CAPACITY {
            self.history.truncate(HISTORY_CAPACITY);
        }
        assert(self.history@ =~= remembered(h, RunHistoryEntry { target, outcome, duration }));
        self.clear_input();
    }
}

impl LauncherState {
    /// Shows a message.
    pub fn record_status(&mut self, text: String)
        ensures
            final(self)@ == (Screen { status: Some(text@), ..old(self)@ }),
    {
        self.status = Some(text);
    }

    /// Lists other tasks; the highlight is kept within the list.
    pub fn replace_tasks(&mut self, tasks: Vec<String>)
        ensures
            final(self)@ == (Screen { all_tasks: texts(tasks@), ..old(self)@ }).reclamped(),
    {
        self.all_tasks = tasks;
        self.reclamp_selection();
    }
}

/// What is said of a run that ended so.
pub open spec fn outcome_text(outcome: RunOutcome) -> Seq<char> {
    match outcome {
        RunOutcome::Success => "ran"@,
        RunOutcome::Failed => "failed"@,
        RunOutcome::Cancelled => "cancelled"@,
    }
}

/// The history with one more run at its front.
pub open spec fn remembered(history: Seq<RunHistoryEntry>, entry: RunHistoryEntry) -> Seq<RunHistoryEntry> {
    let all = seq![entry] + history;
    if all.len() > HISTORY_CAPACITY {
        all.take(HISTORY_CAPACITY as int)
    } else {
        all
    }
}

/// Whatever is typed or pressed, the highlight stays on a task of the list,
/// and is missing only while the list is empty.
pub proof fn law_highlight_stays_in_list(screen: Screen, action: LauncherAction)
    requires
        screen.highlight_ok(),
        screen.all_tasks.len() <= usize::MAX,
    ensures
        screen.step(action).0.highlight_ok(),
{
    let next = screen.step(action).0;
    law_filter_lists_known_tasks(screen.all_tasks, needle(screen.input));
    law_filter_lists_known_tasks(screen.all_tasks, needle(next.input));
}

/// Whatever is typed, the launcher only ever runs a task of its list.
pub proof fn law_only_known_tasks_run(screen: Screen, action: LauncherAction)
    ensures
        screen.step(action).1 matches Decision::Run(c) ==> screen.all_tasks.contains(c.target),
{
    law_filter_lists_known_tasks(screen.all_tasks, needle(screen.input));
}

/// An `Enter` on a screen that lists a task starts a run.
pub proof fn law_enter_runs_while_tasks_listed(screen: Screen)
    requires
        screen.highlight_ok(),
        screen.filtered().len() > 0,
    ensures
        screen.step(LauncherAction::Enter).1 is Run,
{
    let s = Screen { status: None, ..screen };
    assert(s.highlighted() is Some);
}

/// A text that holds more than white space holds a word.
proof fn lemma_text_has_words(s: Seq<char>)
    requires
        trim(s).len() > 0,
    ensures
        words(s).len() > 0,
    decreases s.len(),
{
    if s.len() > 0 && is_white(s[0]) {
        lemma_text_has_words(s.drop_first());
    }
}

/// A line that holds more than white space before a free-standing `--` always
/// stands for a command, whatever is highlighted, and so does any line while a
/// task is.
pub proof fn law_typed_text_is_a_command(screen: Screen)
    requires
        needle(screen.input).len() > 0 || screen.highlighted() is Some,
    ensures
        screen.command() is Some,
{
    if needle(screen.input).len() > 0 {
        lemma_text_has_words(screen.input.take(cut(screen.input)));
    }
}

/// The history never holds more than its capacity, and its newest run stands
/// first.
pub proof fn law_history_is_bounded(history: Seq<RunHistoryEntry>, entry: RunHistoryEntry)
    ensures
        remembered(history, entry).len() <= HISTORY_CAPACITY,
        remembered(history, entry)[0] == entry,
{
}

/// A free-standing `--` is a word of its own.
proof fn lemma_dashes_are_a_word(s: Seq<char>, i: int)
    requires
        dashes_at(s, i),
    ensures
        words(s) == words(s.take(i)) + seq!["--"@] + words(s.skip(i + 2)),
{
    reveal_strlit("--");
    let (left, right) = (s.take(i), s.skip(i + 2));
    let dashes = "--"@;
    assert(!has_white(dashes)) by {
        if has_white(dashes) {
            let j = choose|j: int| 0 <= j < dashes.len() && is_white(#[trigger] dashes[j]);
        }
    }
    law_solid_text_is_one_word(dashes);
    let none = Seq::<char>::empty();
    assert(words(none) =~= Seq::<Seq<char>>::empty());
    let behind = dashes + right;
    assert(words(behind) == seq![dashes] + words(right)) by {
        if right.len() == 0 {
            assert(behind =~= dashes);
            assert(right =~= none);
            assert(seq![dashes] + words(right) =~= seq![dashes]);
        } else {
            let c = right[0];
            let rest = right.drop_first();
            assert(s[i + 2] == c);
            assert(behind =~= dashes + seq![c] + rest);
            assert(right =~= none + seq![c] + rest);
            law_white_space_parts_words(dashes, c, rest);
            law_white_space_parts_words(none, c, rest);
            assert(words(none) + words(rest) =~= words(rest));
        }
    }
    assert(s =~= left + behind);
    if i == 0 {
        assert(left =~= none);
        assert(s =~= behind);
        assert(words(left) + seq![dashes] + words(right) =~= seq![dashes] + words(right));
    } else {
        let c = s[i - 1];
        let front = s.take(i - 1);
        assert(left =~= front + seq![c] + none);
        assert(s =~= front + seq![c] + behind);
        law_white_space_parts_words(front, c, none);
        law_white_space_parts_words(front, c, behind);
        assert(words(front) + words(none) =~= words(front));
        assert(words(left) + seq![dashes] + words(right) =~= words(front) + (seq![dashes] + words(
            right,
        )));
    }
}

/// A word that is `--` stands free.
proof fn lemma_dash_word_stands_free(s: Seq<char>)
    requires
        words(s).contains("--"@),
    ensures
        exists|i: int| dashes_at(s, i),
    decreases s.len(),
{
    reveal_strlit("--");
    if is_white(s[0]) {
        let rest = s.drop_first();
        lemma_dash_word_stands_free(rest);
        let j = choose|j: int| dashes_at(rest, j);
        assert(rest[j] == s[j + 1] && rest[j + 1] == s[j + 2]);
        if j > 0 {
            assert(rest[j - 1] == s[j]);
        }
        if j + 2 < rest.len() {
            assert(rest[j + 2] == s[j + 3]);
        }
        assert(dashes_at(s, j + 1));
    } else {
        let n = word_len(s) as int;
        lemma_word_is_solid(s);
        let (w, rest) = (s.take(n), s.skip(n));
        if w == "--"@ {
            assert(w.len() == 2);
            assert(s[0] == w[0] && s[1] == w[1]);
            assert(dashes_at(s, 0));
        } else {
            let k = choose|k: int| 0 <= k < words(s).len() && words(s)[k] == "--"@;
            assert(words(s) == seq![w] + words(rest));
            assert(words(rest)[k - 1] == "--"@);
            lemma_dash_word_stands_free(rest);
            let j = choose|j: int| dashes_at(rest, j);
            assert(rest[0] == s[n]);
            assert(j > 0);
            assert(rest[j] == s[n + j] && rest[j + 1] == s[n + j + 1] && rest[j - 1] == s[n + j - 1]);
            if j + 2 < rest.len() {
                assert(rest[j + 2] == s[n + j + 2]);
            }
            assert(dashes_at(s, n + j));
        }
    }
}

/// A line is parted at its first word `--`: what stands before it are the words before,
/// and what stands behind it the words behind. `k` is the number of that word, or the
/// number of words where there is none.
pub proof fn law_line_is_parted_at_dashes(s: Seq<char>, k: int)
    requires
        0 <= k <= words(s).len(),
        forall|j: int| 0 <= j < k ==> (#[trigger] words(s)[j]) != "--"@,
        k < words(s).len() ==> words(s)[k] == "--"@,
    ensures
        words(s.take(cut(s))) == words(s).take(k),
        k < words(s).len() <==> cut(s) < s.len(),
        k < words(s).len() ==> words(s.skip(cut(s) + 2)) == words(s).skip(k + 1),
{
    lemma_dashes_from(s, 0);
    let i = cut(s);
    let all = words(s);
    if i < s.len() {
        lemma_dashes_are_a_word(s, i);
        let left = words(s.take(i));
        let right = words(s.skip(i + 2));
        if left.contains("--"@) {
            lemma_dash_word_stands_free(s.take(i));
            let j = choose|j: int| dashes_at(s.take(i), j);
            assert(s.take(i)[j] == s[j] && s.take(i)[j + 1] == s[j + 1]);
            if j > 0 {
                assert(s.take(i)[j - 1] == s[j - 1]);
            }
            if j + 2 == i {
                assert(i > 0 && is_white(s[i - 1]));
                assert(s[j + 1] == '-');
            }
            assert(dashes_at(s, j));
        }
        assert(all[left.len() as int] == "--"@);
        if k < left.len() {
            assert(left[k] == all[k]);
            assert(left.contains("--"@));
        }
        if k > left.len() {
            assert(all[left.len() as int] != "--"@);
        }
        assert(all.take(k) =~= left);
        assert(all.skip(k + 1) =~= right);
    } else {
        if k < all.len() {
            assert(all.contains("--"@));
            lemma_dash_word_stands_free(s);
            let j = choose|j: int| dashes_at(s, j);
        }
        assert(s.take(i) =~= s);
        assert(all.take(k) =~= all);
    }
}

/// What an `Enter` runs. The first word of the line before a word `--` is run when it
/// names a task, whatever is highlighted. The highlighted task is run when that word
/// names none, or there is none. The other words before the `--`, and those behind it,
/// are handed to what is run. `k` is the number of the first word `--`, or the number of
/// words where there is none.
pub proof fn law_enter_runs_the_typed_task(screen: Screen, k: int)
    requires
        0 <= k <= words(screen.input).len(),
        forall|j: int| 0 <= j < k ==> (#[trigger] words(screen.input)[j]) != "--"@,
        k < words(screen.input).len() ==> words(screen.input)[k] == "--"@,
    ensures
        ({
            let line = words(screen.input);
            let given = (if k > 0 {
                line.subrange(1, k)
            } else {
                Seq::empty()
            }) + (if k < line.len() {
                line.skip(k + 1)
            } else {
                Seq::empty()
            });
            let typed = k > 0 && screen.all_tasks.contains(line[0]);
            &&& typed ==> screen.step(LauncherAction::Enter).1 == Decision::Run(
                Command { target: line[0], passthrough: given },
            )
            &&& !typed ==> match screen.highlighted() {
                Some(task) => screen.step(LauncherAction::Enter).1 == Decision::Run(
                    Command { target: task, passthrough: given },
                ),
                None => screen.step(LauncherAction::Enter).1 == Decision::Continue,
            }
        }),
{
    let line = words(screen.input);
    let s = Screen { status: None, ..screen };
    law_line_is_parted_at_dashes(screen.input, k);
    law_filter_lists_known_tasks(screen.all_tasks, needle(screen.input));
    if k > 0 {
        assert(line.take(k)[0] == line[0]);
        assert(line.take(k).skip(1) =~= line.subrange(1, k));
    } else {
        assert(line.take(k).len() == 0);
    }
    let tail = if k < line.len() {
        line.skip(k + 1)
    } else {
        Seq::<Seq<char>>::empty()
    };
    assert(Seq::<Seq<char>>::empty() + tail =~= tail);
    assert(s.highlighted() == screen.highlighted());
}

/// A task's name alone runs the task without arguments, and what is typed behind it, with
/// or without a `--`, becomes its arguments.
pub proof fn law_typed_name_runs_its_task(screen: Screen, name: Seq<char>, rest: Seq<char>)
    requires
        screen.all_tasks.contains(name),
        name.len() > 0,
        !has_white(name),
        name != "--"@,
    ensures
        screen.input == name ==> screen.step(LauncherAction::Enter).1 == Decision::Run(
            Command { target: name, passthrough: Seq::empty() },
        ),
        screen.input == name + " "@ + rest && !words(rest).contains("--"@) ==> screen.step(
            LauncherAction::Enter,
        ).1 == Decision::Run(Command { target: name, passthrough: words(rest) }),
        screen.input == name + " -- "@ + rest ==> screen.step(LauncherAction::Enter).1
            == Decision::Run(Command { target: name, passthrough: words(rest) }),
{
    reveal_strlit(" ");
    reveal_strlit("--");
    reveal_strlit(" -- ");
    law_solid_text_is_one_word(name);
    let none = Seq::<Seq<char>>::empty();
    if screen.input == name {
        law_enter_runs_the_typed_task(screen, 1);
        assert(seq![name].subrange(1, 1) + none =~= none);
    }
    if screen.input == name + " "@ + rest && !words(rest).contains("--"@) {
        assert(name + " "@ + rest =~= name + seq![' '] + rest);
        law_white_space_parts_words(name, ' ', rest);
        let line = words(screen.input);
        assert forall|j: int| 0 <= j < line.len() implies (#[trigger] line[j]) != "--"@ by {
            if j > 0 {
                assert(words(rest)[j - 1] == line[j]);
            }
        }
        law_enter_runs_the_typed_task(screen, line.len() as int);
        assert(line.subrange(1, line.len() as int) + none =~= words(rest));
    }
    if screen.input == name + " -- "@ + rest {
        let dashes = "--"@;
        assert(name + " -- "@ + rest =~= name + seq![' '] + (dashes + seq![' '] + rest));
        assert(!has_white(dashes)) by {
            if has_white(dashes) {
                let j = choose|j: int| 0 <= j < dashes.len() && is_white(#[trigger] dashes[j]);
            }
        }
        law_solid_text_is_one_word(dashes);
        law_white_space_parts_words(dashes, ' ', rest);
        law_white_space_parts_words(name, ' ', dashes + seq![' '] + rest);
        let line = words(screen.input);
        assert(line =~= seq![name, dashes] + words(rest));
        law_enter_runs_the_typed_task(screen, 1);
        assert(line.subrange(1, 1) + line.skip(2) =~= words(rest));
    }
}

/// The list holds those tasks whose name has what the filter says in it, case ignored,
/// in the order in which they stand among all.
pub proof fn law_filter_lists_matching_tasks(a: Seq<Seq<char>>, b: Seq<Seq<char>>, part: Seq<char>)
    ensures
        matching(a + b, part) == matching(a, part) + matching(b, part),
        forall|task: Seq<char>|
            #![trigger lower(task)]
            matching(seq![task], part) == (if exists|i: int|
                0 <= i && i + part.len() <= task.len() && #[trigger] lower(task).subrange(
                    i,
                    i + part.len(),
                ) == lower(part) {
                seq![task]
            } else {
                Seq::empty()
            }),
    decreases b.len(),
{
    if b.len() == 0 {
        assert(a + b =~= a);
        assert(matching(a, part) + matching(b, part) =~= matching(a, part));
    } else {
        law_filter_lists_matching_tasks(a, b.drop_last(), part);
        assert((a + b).drop_last() =~= a + b.drop_last());
        assert((a + b).last() == b.last());
        assert(matching(a + b, part) =~= matching(a, part) + matching(b, part));
    }
    assert forall|task: Seq<char>|
        #![trigger lower(task)]
        matching(seq![task], part) == (if exists|i: int|
            0 <= i && i + part.len() <= task.len() && #[trigger] lower(task).subrange(
                i,
                i + part.len(),
            ) == lower(part) {
            seq![task]
        } else {
            Seq::empty()
        }) by {
        assert(seq![task].drop_last() =~= Seq::<Seq<char>>::empty());
        assert(matching(Seq::<Seq<char>>::empty(), part) =~= Seq::<Seq<char>>::empty());
        let (s, p) = (lower(task), lower(part));
        if contains(s, p) {
            let i = choose|i: int| occurs_at(s, p, i);
            assert(s.subrange(i, i + part.len()) == p);
        }
        if exists|i: int|
            0 <= i && i + part.len() <= task.len() && #[trigger] s.subrange(i, i + part.len()) == p {
            let i = choose|i: int|
                0 <= i && i + part.len() <= task.len() && #[trigger] s.subrange(i, i + part.len())
                    == p;
            assert(occurs_at(s, p, i));
        }
        assert(Seq::<Seq<char>>::empty().push(task) =~= seq![task]);
    }
}

/// No key changes the tasks or the history, and every one but an ignored one takes the
/// message away before anything else is said.
pub proof fn law_keys_keep_tasks_and_history(screen: Screen, action: LauncherAction)
    ensures
        screen.step(action).0.all_tasks == screen.all_tasks,
        screen.step(action).0.history == screen.history,
        action == LauncherAction::Ignore ==> screen.step(action) == (screen, Decision::Continue),
        action != LauncherAction::Ignore && action != LauncherAction::Enter ==> screen.step(
            action,
        ).0.status is None,
        action == LauncherAction::Enter ==> screen.step(action).0.input == screen.input
            && screen.step(action).0.selected == screen.selected,
{
}

/// A character that is typed stands at the end of the line, and is what a backspace takes
/// away again.
pub proof fn law_backspace_undoes_typing(screen: Screen, c: char)
    ensures
        screen.step(LauncherAction::InsertChar(c)).0.input == screen.input + seq![c],
        screen.step(LauncherAction::InsertChar(c)).1 == Decision::Continue,
        screen.step(LauncherAction::InsertChar(c)).0.step(LauncherAction::Backspace).0.input
            == screen.input,
        screen.input.len() == 0 ==> screen.step(LauncherAction::Backspace).0.input.len() == 0,
{
    assert(screen.input.push(c) =~= screen.input + seq![c]);
    assert(screen.input.push(c).drop_last() =~= screen.input);
}

/// The highlight moves by one task of the list, from each end round to the other, and to
/// the ends. Moving down and up are each other's reverse.
pub proof fn law_highlight_moves_by_one(screen: Screen)
    requires
        screen.highlight_ok(),
        screen.filtered().len() > 0,
        screen.filtered().len() <= usize::MAX,
    ensures
        ({
            let n = screen.filtered().len() as int;
            let i = screen.selected->0 as int;
            &&& screen.step(LauncherAction::Down).0.selected == Some(((i + 1) % n) as usize)
            &&& screen.step(LauncherAction::Up).0.selected == Some(((i + n - 1) % n) as usize)
            &&& screen.step(LauncherAction::Home).0.selected == Some(0usize)
            &&& screen.step(LauncherAction::End).0.selected == Some((n - 1) as usize)
            &&& screen.step(LauncherAction::Down).0.step(LauncherAction::Up).0.selected
                == screen.selected
            &&& screen.step(LauncherAction::Up).0.step(LauncherAction::Down).0.selected
                == screen.selected
            &&& screen.step(LauncherAction::Down).0.input == screen.input
            &&& screen.step(LauncherAction::Up).0.input == screen.input
        }),
{
    let n = screen.filtered().len() as int;
    let i = screen.selected->0 as int;
    assert(screen.selected == Some(i as usize));
    if i + 1 < n {
        assert((i + 1) % n == i + 1) by (nonlinear_arith)
            requires
                0 <= i,
                i + 1 < n,
        ;
    } else {
        assert((i + 1) % n == 0) by (nonlinear_arith)
            requires
                i + 1 == n,
                n > 0,
        ;
    }
    if i > 0 {
        assert((i + n - 1) % n == i - 1) by (nonlinear_arith)
            requires
                0 < i < n,
        ;
    } else {
        assert((i + n - 1) % n == n - 1) by (nonlinear_arith)
            requires
                i == 0,
                n > 0,
        ;
    }
}

/// Leaving: an empty line is left, any other is cleared first. Clearing a line lists every
/// task again and leaves the screen.
pub proof fn law_quit_clears_the_line_first(screen: Screen)
    ensures
        screen.input.len() == 0 ==> screen.step(LauncherAction::Quit).1 == Decision::Quit,
        screen.input.len() > 0 ==> {
            &&& screen.step(LauncherAction::Quit).1 == Decision::Continue
            &&& screen.step(LauncherAction::Quit).0.input.len() == 0
            &&& screen.step(LauncherAction::Quit).0.filtered() == screen.all_tasks
            &&& screen.step(LauncherAction::Quit).0.step(LauncherAction::Quit).1 == Decision::Quit
        },
        screen.step(LauncherAction::ClearInput).0.input.len() == 0,
        screen.step(LauncherAction::ClearInput).1 == Decision::Continue,
{
    let e = Seq::<char>::empty();
    law_empty_filter_lists_all(screen.all_tasks);
    assert(e.take(0) =~= e);
    assert(trim(e) =~= e);
    lemma_dashes_from(e, 0);
}

/// Completing puts the name of the highlighted task in the line, and an `Enter` then runs
/// that task.
pub proof fn law_completed_task_is_run(screen: Screen, name: Seq<char>)
    requires
        screen.highlighted() == Some(name),
        name.len() > 0,
        !has_white(name),
        name != "--"@,
    ensures
        screen.step(LauncherAction::Complete).0.input == name,
        screen.step(LauncherAction::Complete).1 == Decision::Continue,
        screen.step(LauncherAction::Complete).0.step(LauncherAction::Enter).1 == Decision::Run(
            Command { target: name, passthrough: Seq::empty() },
        ),
{
    law_filter_lists_known_tasks(screen.all_tasks, needle(screen.input));
    let done = screen.step(LauncherAction::Complete).0;
    assert(screen.all_tasks.contains(name));
    law_typed_name_runs_its_task(done, name, Seq::empty());
}

/// What is said when nothing can be run.
pub proof fn law_enter_says_what_is_missing(screen: Screen)
    requires
        screen.highlighted() is None,
        screen.step(LauncherAction::Enter).1 == Decision::Continue,
    ensures
        words(screen.input).len() > 0 && words(screen.input)[0] != "--"@ ==> screen.step(
            LauncherAction::Enter,
        ).0.status == Some(
            "no task matches '"@ + words(screen.input)[0] + "' — pick one from the list"@,
        ),
        words(screen.input).len() == 0 || words(screen.input)[0] == "--"@ ==> screen.step(
            LauncherAction::Enter,
        ).0.status == Some("type a task name or pick one with ↑/↓"@),
{
    let line = words(screen.input);
    let k = first_dashes(line, 0);
    lemma_first_dashes(line, 0);
    law_line_is_parted_at_dashes(screen.input, k);
    if line.len() > 0 && line[0] != "--"@ {
        assert(k > 0);
        assert(line.take(k)[0] == line[0]);
    } else {
        assert(k == 0);
    }
}

/// The number of the first word `--` from `i` on, or the number of words.
spec fn first_dashes(line: Seq<Seq<char>>, i: int) -> int
    decreases line.len() - i,
{
    if i >= line.len() {
        line.len() as int
    } else if line[i] == "--"@ {
        i
    } else {
        first_dashes(line, i + 1)
    }
}

proof fn lemma_first_dashes(line: Seq<Seq<char>>, i: int)
    requires
        0 <= i <= line.len(),
    ensures
        i <= first_dashes(line, i) <= line.len(),
        forall|j: int| i <= j < first_dashes(line, i) ==> (#[trigger] line[j]) != "--"@,
        first_dashes(line, i) < line.len() ==> line[first_dashes(line, i)] == "--"@,
    decreases line.len() - i,
{
    if i < line.len() && line[i] != "--"@ {
        lemma_first_dashes(line, i + 1);
    }
}

/// The newest run stands first in the history, the others follow in their order, and the
/// sixteen newest are kept.
pub proof fn law_history_keeps_the_newest_runs(history: Seq<RunHistoryEntry>, entry: RunHistoryEntry)
    ensures
        remembered(history, entry)[0] == entry,
        remembered(history, entry).len() == (if history.len() < 16 {
            history.len() + 1
        } else {
            16
        }),
        forall|i: int|
            1 <= i < remembered(history, entry).len() ==> (#[trigger] remembered(history, entry)[i])
                == history[i - 1],
{
}

/// A run that ended is told with its target and how long it took, and how it ended tells
/// success, failure and cancel apart.
pub proof fn law_ended_run_is_told(state: &mut LauncherState, target: String, outcome: RunOutcome, duration: Duration)
    requires
        call_ensures(LauncherState::record_run, (state, target, outcome, duration), ()),
    ensures
        ({
            let word = match outcome {
                RunOutcome::Success => "ran"@,
                RunOutcome::Failed => "failed"@,
                RunOutcome::Cancelled => "cancelled"@,
            };
            final(state)@.status == Some(
                word + " "@ + target@ + " in "@ + duration_text((duration.nanos / 1_000_000) as nat),
            )
        }),
        final(state)@.history.len() > 0,
        final(state)@.history[0].target == target,
        final(state)@.history[0].outcome == outcome,
        final(state)@.history[0].duration == duration,
        final(state)@.input.len() == 0,
        final(state)@.all_tasks == old(state)@.all_tasks,
{
}

/// A message is shown as it is, and new tasks are listed as they are; nothing else that was
/// typed or remembered changes.
pub proof fn law_messages_and_tasks_are_taken_over(
    told: &mut LauncherState,
    text: String,
    listed: &mut LauncherState,
    tasks: Vec<String>,
    fresh: LauncherState,
)
    requires
        call_ensures(LauncherState::record_status, (told, text), ()),
        call_ensures(LauncherState::replace_tasks, (listed, tasks), ()),
        call_ensures(LauncherState::new, (tasks,), fresh),
    ensures
        final(told)@.status == Some(text@),
        final(told)@.input == old(told)@.input,
        final(told)@.selected == old(told)@.selected,
        final(told)@.history == old(told)@.history,
        final(told)@.all_tasks == old(told)@.all_tasks,
        final(listed)@.all_tasks == texts(tasks@),
        final(listed)@.input == old(listed)@.input,
        final(listed)@.history == old(listed)@.history,
        final(listed)@.status == old(listed)@.status,
        fresh@.all_tasks == texts(tasks@),
        fresh@.input.len() == 0 && fresh@.history.len() == 0 && fresh@.status is None,
        tasks@.len() > 0 ==> fresh@.selected == Some(0usize),
        tasks@.len() == 0 ==> fresh@.selected is None,
{
}

/// An `Enter` on the screen runs the typed task: where the line starts with the name of a
/// listed task, that task is what is handed out to run, whatever is highlighted, and the
/// words behind it go along. The line and the highlight stay.
pub proof fn law_screen_runs_what_is_typed(
    state: &mut LauncherState,
    r: LauncherDecision,
    name: Seq<char>,
    rest: Seq<char>,
)
    requires
        call_ensures(LauncherState::apply, (state, LauncherAction::Enter), r),
        old(state)@.all_tasks.contains(name),
        name.len() > 0,
        !has_white(name),
        name != "--"@,
        old(state)@.input == name || old(state)@.input == name + " -- "@ + rest || old(state)@.input == name
            + " "@ + rest && !words(rest).contains("--"@),
    ensures
        r matches LauncherDecision::Run(cmd) && {
            &&& cmd.target@ == name
            &&& old(state)@.input == name || texts(cmd.passthrough@) == words(rest)
            &&& old(state)@.input == name ==> cmd.passthrough@.len() == 0
        },
        final(state)@.input == old(state)@.input,
        final(state)@.selected == old(state)@.selected,
        final(state)@.all_tasks == old(state)@.all_tasks,
{
    law_typed_name_runs_its_task(old(state)@, name, rest);
    law_keys_keep_tasks_and_history(old(state)@, LauncherAction::Enter);
    let (screen, decision) = old(state)@.step(LauncherAction::Enter);
    assert(r@ == decision);
    if let LauncherDecision::Run(cmd) = r {
        assert(r@ == Decision::Run(cmd@));
        assert(texts(cmd.passthrough@).len() == cmd.passthrough@.len());
    }
}

/// Every action on the screen does what it is said to do on its content, and what is asked
/// about the screen is told of its content.
pub proof fn law_screen_is_its_content(
    state: &mut LauncherState,
    action: LauncherAction,
    r: LauncherDecision,
    listed: Vec<&str>,
    marked: Option<&str>,
    command: Option<ParsedCommand>,
)
    requires
        call_ensures(LauncherState::apply, (state, action), r),
        call_ensures(LauncherState::filtered_tasks, (old(state),), listed),
        call_ensures(LauncherState::highlighted_task, (old(state),), marked),
        call_ensures(LauncherState::parse_command, (old(state),), command),
    ensures
        final(state)@ == old(state)@.step(action).0,
        r@ == old(state)@.step(action).1,
        listed@.len() == old(state)@.filtered().len(),
        forall|i: int| 0 <= i < listed@.len() ==> (#[trigger] listed@[i])@ == old(state)@.filtered()[i],
        marked is Some <==> old(state)@.highlighted() is Some,
        marked matches Some(name) ==> old(state)@.highlighted() == Some(name@),
        command is Some <==> old(state)@.command() is Some,
        command matches Some(c) ==> old(state)@.command() == Some(c@),
{
    assert(slices(listed@).len() == listed@.len());
    assert forall|i: int| 0 <= i < listed@.len() implies (#[trigger] listed@[i])@ == old(
        state)@.filtered()[i] by {
        assert(slices(listed@)[i] == listed@[i]@);
    }
}

/// The filter is what is typed before a free-standing `--`, without white space around it.
pub proof fn law_filter_is_what_is_typed(input: &str, r: String)
    requires
        call_ensures(filter_needle, (input,), r),
    ensures
        (forall|i: int| !dashes_at(input@, i)) ==> r@ == trim(input@),
        r@ == needle(input@),
{
    if forall|i: int| !dashes_at(input@, i) {
        lemma_dashes_found(input@, 0, input@.len() as int);
        assert(input@.take(input@.len() as int) =~= input@);
    }
}

/// The highlight stays at its place in the list when what is typed changes the list. Where the
/// list has become too short for it, it is on the last task, where there was none, on the
/// first, and on an empty list there is none.
pub proof fn law_highlight_keeps_its_place(screen: Screen, c: char, tasks: Seq<Seq<char>>)
    requires
        screen.all_tasks.len() <= usize::MAX,
        tasks.len() <= usize::MAX,
    ensures
        screen.step(LauncherAction::InsertChar(c)).0.has_kept(screen.selected),
        screen.step(LauncherAction::Backspace).0.has_kept(screen.selected),
        screen.step(LauncherAction::Complete).0.has_kept(screen.selected) || screen.highlighted() is None,
        screen.input.len() > 0 ==> screen.step(LauncherAction::ClearInput).0.has_kept(screen.selected),
        (Screen { all_tasks: tasks, ..screen }).reclamped().has_kept(screen.selected),
        screen.filtered().len() == 0 ==> screen.step(LauncherAction::Up).0.selected == screen.selected
            && screen.step(LauncherAction::Down).0.selected == screen.selected,
{
    law_filter_lists_known_tasks(screen.all_tasks, needle(screen.step(LauncherAction::InsertChar(c)).0.input));
    law_filter_lists_known_tasks(screen.all_tasks, needle(screen.step(LauncherAction::Backspace).0.input));
    law_filter_lists_known_tasks(screen.all_tasks, needle(screen.step(LauncherAction::Complete).0.input));
    law_filter_lists_known_tasks(screen.all_tasks, needle(screen.step(LauncherAction::ClearInput).0.input));
    law_filter_lists_known_tasks(tasks, needle(screen.input));
}

impl Screen {
    /// Whether the highlight is where it was, as far as the list reaches.
    pub open spec fn has_kept(self, was: Option<usize>) -> bool {
        let n = self.filtered().len();
        &&& n == 0 ==> self.selected is None
        &&& n > 0 && was is None ==> self.selected == Some(0usize)
        &&& was matches Some(i) ==> i < n ==> self.selected == Some(i)
        &&& n > 0 ==> (was matches Some(i) ==> i >= n ==> (self.selected matches Some(j) && j == n - 1))
    }
}

} // verus!
