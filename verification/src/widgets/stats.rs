//! The cards beside the launcher.

use vstd::prelude::*;
use crate::decimal::{
    binary_integer, one_place, one_place_string, round_half_even, rounded, to_binary, two_places,
    two_places_string,
};
use crate::launcher::{LauncherState, RunOutcome};
use crate::number::{dec, dec_string};
use crate::session::{LauncherCtx, TaskMeta};
use crate::text::{join, joined, same, texts};
use crate::theme::Palette;
use crate::time::{age_text, duration_text, format_ago, format_dur, format_ms, Duration};
use crate::widgets::launcher::{run_lines, run_rows};
use crate::widgets::{
    colored, lemma_pieces_push, lemma_rows_push, line_of, pieces, rows, span, Pane, Piece, Span,
};

verus! {

/// What a session has done.
#[derive(Debug, Clone, Copy, PartialEq, Eq, Structural)]
pub struct SessionStats {
    pub total_runs: u32,
    pub successes: u32,
    pub failures: u32,
    pub cancellations: u32,
    pub total_duration: Duration,
}

impl SessionStats {
    /// Nothing.
    pub fn new() -> (r: SessionStats)
        ensures
            r == (SessionStats {
                total_runs: 0,
                successes: 0,
                failures: 0,
                cancellations: 0,
                total_duration: Duration { nanos: 0 },
            }),
    {
        SessionStats {
            total_runs: 0,
            successes: 0,
            failures: 0,
            cancellations: 0,
            total_duration: Duration::zero(),
        }
    }

    /// Every run is counted once, by how it ended.
    pub open spec fn adds_up(self) -> bool {
        self.successes + self.failures + self.cancellations == self.total_runs
    }

    /// Counts a run.
    pub fn count(&mut self, outcome: RunOutcome, took: Duration)
        requires
            old(self).adds_up(),
            old(self).total_runs < u32::MAX,
            old(self).total_duration.nanos + took.nanos <= u128::MAX,
        ensures
            final(self).adds_up(),
            final(self).total_runs == old(self).total_runs + 1,
            final(self).successes == old(self).successes + (if outcome == RunOutcome::Success {
                1int
            } else {
                0
            }),
            final(self).failures == old(self).failures + (if outcome == RunOutcome::Failed {
                1int
            } else {
                0
            }),
            final(self).total_duration.nanos == old(self).total_duration.nanos + took.nanos,
    {
        self.total_runs = self.total_runs + 1;
        match outcome {
            RunOutcome::Success => {
                self.successes = self.successes + 1;
            },
            RunOutcome::Failed => {
                self.failures = self.failures + 1;
            },
            RunOutcome::Cancelled => {
                self.cancellations = self.cancellations + 1;
            },
        }
        self.total_duration = Duration { nanos: self.total_duration.nanos + took.nanos };
    }
}

/// A size in the largest unit of which it makes up at least one.
pub open spec fn bytes_text(bytes: nat) -> Seq<char> {
    if bytes < 0x400 {
        dec(bytes) + " B"@
    } else if bytes < 0x10_0000 {
        one_place(round_half_even(bytes * 10, 0x400)) + " KB"@
    } else if bytes < 0x4000_0000 {
        one_place(round_half_even(bytes * 10, 0x10_0000)) + " MB"@
    } else {
        two_places(round_half_even(binary_integer(bytes) * 100, 0x4000_0000)) + " GB"@
    }
}

/// A size in the largest unit of which it makes up at least one: kilobytes and
/// megabytes with one decimal, gigabytes with two.
pub fn format_bytes(bytes: u64) -> (r: String)
    ensures
        r@ == bytes_text(bytes as nat),
{
    if bytes < 0x400 {
        let mut r = dec_string(bytes as u128);
        r.append(" B");
        r
    } else if bytes < 0x10_0000 {
        let mut r = one_place_string(rounded(bytes as u128 * 10, 0x400));
        r.append(" KB");
        r
    } else if bytes < 0x4000_0000 {
        let mut r = one_place_string(rounded(bytes as u128 * 10, 0x10_0000));
        r.append(" MB");
        r
    } else {
        let mut r = two_places_string(rounded(to_binary(bytes) * 100, 0x4000_0000));
        r.append(" GB");
        r
    }
}

/// The cards beside the launcher.
pub struct StatsPanel<'s> {
    pub state: &'s LauncherState,
    pub stats: &'s SessionStats,
    pub ctx: &'s LauncherCtx,
    pub palette: &'s Palette,
}

/// The cards, from top to bottom.
#[derive(Debug, Clone)]
pub struct StatsView {
    pub workspace: Pane,
    pub cache: Pane,
    pub session: Pane,
    /// The highlighted task, if there is one.
    pub task: Option<Pane>,
    pub recent: Pane,
}

/// The theme: its name, behind the name that was asked for if that is another.
pub open spec fn theme_label(ctx: LauncherCtx) -> Seq<char> {
    match ctx.theme_requested_name {
        Some(name) if name@ != ctx.theme_resolved_name@ => name@ + " → "@
            + ctx.theme_resolved_name@,
        _ => ctx.theme_resolved_name@,
    }
}

/// The version, and the revision if it is known.
pub open spec fn version_text(ctx: LauncherCtx) -> Seq<char> {
    match ctx.git_rev {
        Some(rev) => "broski "@ + ctx.version@ + " · git@"@ + rev@,
        None => "broski "@ + ctx.version@,
    }
}

/// The card of the workspace.
pub open spec fn workspace_rows(ctx: LauncherCtx, palette: Palette) -> Seq<Seq<Piece>> {
    seq![
        seq![colored(ctx.workspace_display@, palette.fg)],
        seq![colored(version_text(ctx), palette.help)],
        seq![colored("theme: "@, palette.help), colored(theme_label(ctx), palette.eta)],
    ]
}

/// The card of the cache.
pub open spec fn cache_row(ctx: LauncherCtx, palette: Palette) -> Seq<Piece> {
    let n = ctx.cache_stats.object_count as nat;
    seq![
        colored(
            " "@ + dec(n) + " object"@ + (if n == 1 {
                ""@
            } else {
                "s"@
            }),
            palette.fg,
        ),
        colored(" · "@, palette.help),
        colored(bytes_text(ctx.cache_stats.total_bytes as nat), palette.cached),
    ]
}

/// The card of the session.
pub open spec fn session_row(stats: SessionStats, palette: Palette) -> Seq<Piece> {
    seq![
        colored(" "@ + dec(stats.total_runs as nat) + " run"@, palette.fg),
        colored(
            if stats.total_runs == 1 {
                " "@
            } else {
                "s "@
            },
            palette.fg,
        ),
        colored(dec(stats.successes as nat), palette.done),
        colored("✓ "@, palette.done),
        colored(dec(stats.failures as nat), palette.failed),
        colored("✗ "@, palette.failed),
        colored(dec(stats.cancellations as nat), palette.queued),
        colored("⊘  · "@, palette.queued),
        colored(duration_text((stats.total_duration.nanos / 1_000_000) as nat), palette.eta),
    ]
}

/// What a task needs and makes, and when it ran last.
pub open spec fn detail_text(meta: TaskMeta) -> Seq<char> {
    let deps = if meta.deps@.len() == 0 {
        "—"@
    } else {
        join(texts(meta.deps@), ", "@)
    };
    let head = " deps: "@ + deps + "  · in: "@ + dec(meta.inputs_count as nat) + "  · out: "@ + dec(
        meta.outputs_count as nat,
    );
    match (meta.last_run_ago_secs, meta.last_duration_ms) {
        (Some(ago), Some(ms)) => head + "  · last: "@ + duration_text(ms as nat) + " ("@ + age_text(
            (if ago < 0 {
                0
            } else {
                ago as int
            }) as nat,
        ) + " ago)"@,
        _ => head,
    }
}

/// The card of a task.
pub open spec fn task_card(ctx: LauncherCtx, task: Seq<char>, palette: Palette) -> Seq<Seq<Piece>> {
    if ctx.task_meta@.contains_key(task) {
        let meta = ctx.task_meta@[task];
        seq![
            seq![
                match meta.description {
                    Some(text) => colored(text@, palette.fg),
                    None => Piece {
                        text: "(no description)"@,
                        color: Some(palette.help),
                        bold: false,
                        italic: true,
                    },
                },
            ],
            seq![colored(detail_text(meta), palette.help)],
        ]
    } else {
        seq![seq![colored("(missing metadata — try /refresh)"@, palette.help)]]
    }
}

/// How many runs fit in a card of `height` lines, two of which are its border.
pub open spec fn fits(height: int) -> int {
    if height >= 2 {
        height - 2
    } else {
        0
    }
}

impl<'s> StatsPanel<'s> {
    /// The cards in the colours of the palette.
    pub fn new(
        state: &'s LauncherState,
        stats: &'s SessionStats,
        ctx: &'s LauncherCtx,
        palette: &'s Palette,
    ) -> (r: StatsPanel<'s>)
        ensures
            *r.state == *state,
            *r.stats == *stats,
            *r.ctx == *ctx,
            *r.palette == *palette,
    {
        StatsPanel { state, stats, ctx, palette }
    }

    /// A card.
    fn card(&self, title: String, lines: Vec<Vec<Span>>) -> (r: Pane)
        ensures
            r.title == title,
            r.is_text(self.palette.accent),
            r.lines == lines,
    {
        Pane { title, border: self.palette.accent, lines, selected: None }
    }

    /// The cards. `recent_height` is the height of the last one.
    pub fn render(&self, recent_height: u16) -> (r: StatsView)
        requires
            self.ctx.task_meta.wf(),
        ensures
            r.workspace.is_text(self.palette.accent),
            r.workspace.title@ == " Workspace "@,
            rows(r.workspace.lines@) == workspace_rows(*self.ctx, *self.palette),
            r.cache.is_text(self.palette.accent),
            r.cache.title@ == " Cache "@,
            rows(r.cache.lines@) == seq![cache_row(*self.ctx, *self.palette)],
            r.session.is_text(self.palette.accent),
            r.session.title@ == " Session "@,
            rows(r.session.lines@) == seq![session_row(*self.stats, *self.palette)],
            match (r.task, self.state@.highlighted()) {
                (Some(card), Some(task)) => {
                    &&& card.is_text(self.palette.accent)
                    &&& card.title@ == " Task: "@ + task + " "@
                    &&& rows(card.lines@) == task_card(*self.ctx, task, *self.palette)
                },
                (None, None) => true,
                _ => false,
            },
            r.recent.is_text(self.palette.accent),
            r.recent.title@ == " Recent runs "@,
            rows(r.recent.lines@) == run_rows(
                self.state@.history,
                *self.palette,
                fits(recent_height as int),
                20,
            ),
    {
        let task = match self.state.highlighted_task() {
            Some(name) => Some(self.render_task_detail(name)),
            None => None,
        };
        let most: usize = (recent_height as usize).saturating_sub(2);
        let recent = run_lines(&self.state.history, self.palette, most, 20);
        StatsView {
            workspace: self.render_workspace(),
            cache: self.render_cache(),
            session: self.render_session(),
            task,
            recent: self.card(" Recent runs ".to_owned(), recent),
        }
    }

    /// The card of the workspace.
    fn render_workspace(&self) -> (r: Pane)
        ensures
            r.is_text(self.palette.accent),
            r.title@ == " Workspace "@,
            rows(r.lines@) == workspace_rows(*self.ctx, *self.palette),
    {
        broadcast use lemma_pieces_push;
        broadcast use lemma_rows_push;
        let label = match &self.ctx.theme_requested_name {
            Some(name) => {
                if same(name.as_str(), self.ctx.theme_resolved_name.as_str()) {
                    self.ctx.theme_resolved_name.clone()
                } else {
                    let mut label = name.clone();
                    label.append(" → ");
                    label.append(self.ctx.theme_resolved_name.as_str());
                    label
                }
            },
            None => self.ctx.theme_resolved_name.clone(),
        };
        let mut version = "broski ".to_owned();
        version.append(self.ctx.version.as_str());
        if let Some(rev) = &self.ctx.git_rev {
            version.append(" · git@");
            version.append(rev.as_str());
        }
        let mut lines: Vec<Vec<Span>> = Vec::new();
        assert(rows(lines@) =~= Seq::<Seq<Piece>>::empty());
        lines.push(line_of(span(self.ctx.workspace_display.clone(), self.palette.fg)));
        lines.push(line_of(span(version, self.palette.help)));
        let mut line: Vec<Span> = Vec::new();
        assert(pieces(line@) =~= Seq::<Piece>::empty());
        line.push(span("theme: ".to_owned(), self.palette.help));
        line.push(span(label, self.palette.eta));
        assert(pieces(line@) =~= seq![
            colored("theme: "@, self.palette.help),
            colored(theme_label(*self.ctx), self.palette.eta),
        ]);
        lines.push(line);
        assert(rows(lines@) =~= workspace_rows(*self.ctx, *self.palette));
        self.card(" Workspace ".to_owned(), lines)
    }

    /// The card of the cache.
    fn render_cache(&self) -> (r: Pane)
        ensures
            r.is_text(self.palette.accent),
            r.title@ == " Cache "@,
            rows(r.lines@) == seq![cache_row(*self.ctx, *self.palette)],
    {
        broadcast use lemma_pieces_push;
        let n: usize = self.ctx.cache_stats.object_count;
        let mut text = " ".to_owned();
        let digits = dec_string(n as u128);
        text.append(digits.as_str());
        text.append(" object");
        if n == 1 {
            text.append("");
        } else {
            text.append("s");
        }
        let mut line: Vec<Span> = Vec::new();
        assert(pieces(line@) =~= Seq::<Piece>::empty());
        line.push(span(text, self.palette.fg));
        line.push(span(" · ".to_owned(), self.palette.help));
        line.push(span(format_bytes(self.ctx.cache_stats.total_bytes), self.palette.cached));
        assert(pieces(line@) =~= cache_row(*self.ctx, *self.palette));
        let mut lines: Vec<Vec<Span>> = Vec::new();
        lines.push(line);
        assert(rows(lines@) =~= seq![cache_row(*self.ctx, *self.palette)]);
        self.card(" Cache ".to_owned(), lines)
    }

    /// The card of the session.
    fn render_session(&self) -> (r: Pane)
        ensures
            r.is_text(self.palette.accent),
            r.title@ == " Session "@,
            rows(r.lines@) == seq![session_row(*self.stats, *self.palette)],
    {
        broadcast use lemma_pieces_push;
        let mut line: Vec<Span> = Vec::new();
        assert(pieces(line@) =~= Seq::<Piece>::empty());
        let mut text = " ".to_owned();
        let digits = dec_string(self.stats.total_runs as u128);
        text.append(digits.as_str());
        text.append(" run");
        line.push(span(text, self.palette.fg));
        let plural = if self.stats.total_runs == 1 {
            " ".to_owned()
        } else {
            "s ".to_owned()
        };
        line.push(span(plural, self.palette.fg));
        line.push(span(dec_string(self.stats.successes as u128), self.palette.done));
        line.push(span("✓ ".to_owned(), self.palette.done));
        line.push(span(dec_string(self.stats.failures as u128), self.palette.failed));
        line.push(span("✗ ".to_owned(), self.palette.failed));
        line.push(span(dec_string(self.stats.cancellations as u128), self.palette.queued));
        line.push(span("⊘  · ".to_owned(), self.palette.queued));
        line.push(span(format_dur(self.stats.total_duration), self.palette.eta));
        assert(pieces(line@) =~= session_row(*self.stats, *self.palette));
        let mut lines: Vec<Vec<Span>> = Vec::new();
        lines.push(line);
        assert(rows(lines@) =~= seq![session_row(*self.stats, *self.palette)]);
        self.card(" Session ".to_owned(), lines)
    }

    /// What a task needs and makes, and when it ran last.
    fn detail(&self, meta: &TaskMeta) -> (r: String)
        ensures
            r@ == detail_text(*meta),
    {
        let mut r = " deps: ".to_owned();
        if meta.deps.len() == 0 {
            r.append("—");
        } else {
            let deps = joined(&meta.deps, ", ");
            r.append(deps.as_str());
        }
        r.append("  · in: ");
        let n = dec_string(meta.inputs_count as u128);
        r.append(n.as_str());
        r.append("  · out: ");
        let n = dec_string(meta.outputs_count as u128);
        r.append(n.as_str());
        if let (Some(ago), Some(ms)) = (meta.last_run_ago_secs, meta.last_duration_ms) {
            r.append("  · last: ");
            let took = format_ms(ms);
            r.append(took.as_str());
            r.append(" (");
            let since = format_ago(ago);
            r.append(since.as_str());
            r.append(" ago)");
        }
        r
    }

    /// The card of a task.
    fn render_task_detail(&self, task: &str) -> (r: Pane)
        requires
            self.ctx.task_meta.wf(),
        ensures
            r.is_text(self.palette.accent),
            r.title@ == " Task: "@ + task@ + " "@,
            rows(r.lines@) == task_card(*self.ctx, task@, *self.palette),
    {
        broadcast use lemma_rows_push;
        let mut title = " Task: ".to_owned();
        title.append(task);
        title.append(" ");
        let mut lines: Vec<Vec<Span>> = Vec::new();
        assert(rows(lines@) =~= Seq::<Seq<Piece>>::empty());
        match self.ctx.task_meta.get(task) {
            Some(meta) => {
                match &meta.description {
                    Some(text) => {
                        lines.push(line_of(span(text.clone(), self.palette.fg)));
                    },
                    None => {
                        lines.push(
                            line_of(
                                Span {
                                    text: "(no description)".to_owned(),
                                    color: Some(self.palette.help),
                                    bold: false,
                                    italic: true,
                                },
                            ),
                        );
                    },
                }
                lines.push(line_of(span(self.detail(meta), self.palette.help)));
            },
            None => {
                lines.push(
                    line_of(
                        span("(missing metadata — try /refresh)".to_owned(), self.palette.help),
                    ),
                );
            },
        }
        assert(rows(lines@) =~= task_card(*self.ctx, task@, *self.palette));
        self.card(title, lines)
    }
}

/// A run is counted once, under how it ended, and its duration is added.
pub proof fn law_runs_are_counted_by_their_end(
    stats: &mut SessionStats,
    outcome: RunOutcome,
    took: Duration,
    fresh: SessionStats,
)
    requires
        old(stats).adds_up(),
        call_ensures(SessionStats::count, (stats, outcome, took), ()),
        call_ensures(SessionStats::new, (), fresh),
    ensures
        final(stats).total_runs == old(stats).total_runs + 1,
        final(stats).successes - old(stats).successes == (if outcome == RunOutcome::Success {
            1int
        } else {
            0
        }),
        final(stats).failures - old(stats).failures == (if outcome == RunOutcome::Failed {
            1int
        } else {
            0
        }),
        final(stats).cancellations - old(stats).cancellations == (if outcome == RunOutcome::Cancelled {
            1int
        } else {
            0
        }),
        final(stats).total_duration.nanos == old(stats).total_duration.nanos + took.nanos,
        fresh.total_runs == 0 && fresh.successes == 0 && fresh.failures == 0,
        fresh.cancellations == 0 && fresh.total_duration.nanos == 0,
{
}

/// A size is told in the largest unit of which it makes up one: below 1024 in bytes, then in
/// units of 1024, 1024 times 1024, and 1024 times that. Kilobytes and megabytes are told to
/// the nearest tenth.
pub proof fn law_sizes_are_told_in_their_unit(bytes: nat)
    requires
        bytes <= u64::MAX,
    ensures
        bytes < 1024 ==> bytes_text(bytes) == dec(bytes) + " B"@,
        1024 <= bytes < 1024 * 1024 ==> exists|n: nat| #[trigger]
            one_place(n) + " KB"@ == bytes_text(bytes) && 2 * (n * 1024) <= 20 * bytes + 1024 && 20 * bytes
                <= 2 * (n * 1024) + 1024,
        1024 * 1024 <= bytes < 1024 * 1024 * 1024 ==> exists|n: nat| #[trigger]
            one_place(n) + " MB"@ == bytes_text(bytes) && 2 * (n * 1_048_576) <= 20 * bytes + 1_048_576
                && 20 * bytes <= 2 * (n * 1_048_576) + 1_048_576,
        1024 * 1024 * 1024 <= bytes < 0x20_0000_0000_0000 ==> exists|n: nat| #[trigger]
            two_places(n) + " GB"@ == bytes_text(bytes) && 2 * (n * 1_073_741_824) <= 200 * bytes
                + 1_073_741_824 && 200 * bytes <= 2 * (n * 1_073_741_824) + 1_073_741_824,
{
    if bytes < 1024 {
    } else if bytes < 0x10_0000 {
        crate::decimal::law_rounding_is_to_the_nearest(bytes * 10, 0x400);
        let n = round_half_even(bytes * 10, 0x400);
        assert(one_place(n) + " KB"@ == bytes_text(bytes));
    } else if bytes < 0x4000_0000 {
        crate::decimal::law_rounding_is_to_the_nearest(bytes * 10, 0x10_0000);
        let n = round_half_even(bytes * 10, 0x10_0000);
        assert(one_place(n) + " MB"@ == bytes_text(bytes));
    } else if bytes < 0x20_0000_0000_0000 {
        crate::decimal::law_mantissa_holds_small_numbers(bytes);
        crate::decimal::law_rounding_is_to_the_nearest(bytes * 100, 0x4000_0000);
        let n = round_half_even(bytes * 100, 0x4000_0000);
        assert(two_places(n) + " GB"@ == bytes_text(bytes));
    }
}

/// The card of the workspace tells where it is, which version runs, with the revision if it is
/// known, and which theme is drawn; one that was asked for under another name is told before
/// it.
pub proof fn law_card_of_the_workspace(ctx: LauncherCtx, palette: Palette)
    ensures
        ({
            let rows = workspace_rows(ctx, palette);
            &&& rows.len() == 3
            &&& rows[0][0].text == ctx.workspace_display@
            &&& ctx.git_rev is None ==> rows[1][0].text == "broski "@ + ctx.version@
            &&& ctx.git_rev matches Some(rev) ==> rows[1][0].text == "broski "@ + ctx.version@ + " · git@"@
                + rev@
            &&& rows[2][0].text == "theme: "@
            &&& ctx.theme_requested_name is None ==> rows[2][1].text == ctx.theme_resolved_name@
            &&& ctx.theme_requested_name matches Some(name) ==> (if name@ == ctx.theme_resolved_name@ {
                rows[2][1].text == name@
            } else {
                rows[2][1].text == name@ + " → "@ + ctx.theme_resolved_name@
            })
        }),
{
}

/// The card of the cache counts the objects and tells their size.
pub proof fn law_card_of_the_cache(ctx: LauncherCtx, palette: Palette)
    ensures
        ({
            let row = cache_row(ctx, palette);
            &&& ctx.cache_stats.object_count == 1 ==> row[0].text == " "@ + dec(1) + " object"@
            &&& ctx.cache_stats.object_count != 1 ==> row[0].text == " "@ + dec(
                ctx.cache_stats.object_count as nat,
            ) + " object"@ + "s"@
            &&& row[2].text == bytes_text(ctx.cache_stats.total_bytes as nat)
        }),
{
    reveal_strlit("");
    assert(" "@ + dec(1) + " object"@ + ""@ =~= " "@ + dec(1) + " object"@);
}

/// The card of the session counts the runs, those that succeeded, failed and were cancelled,
/// each in its colour and before its mark, and tells how long they took together.
pub proof fn law_card_of_the_session(stats: SessionStats, palette: Palette)
    ensures
        ({
            let row = session_row(stats, palette);
            &&& row[0].text == " "@ + dec(stats.total_runs as nat) + " run"@
            &&& stats.total_runs == 1 ==> row[1].text == " "@
            &&& stats.total_runs != 1 ==> row[1].text == "s "@
            &&& row[2].text == dec(stats.successes as nat) && row[3].text == "✓ "@
            &&& row[4].text == dec(stats.failures as nat) && row[5].text == "✗ "@
            &&& row[6].text == dec(stats.cancellations as nat)
            &&& row[2].color == Some(palette.done) && row[4].color == Some(palette.failed)
            &&& row[6].color == Some(palette.queued)
            &&& row[8].text == duration_text((stats.total_duration.nanos / 1_000_000) as nat)
        }),
{
}

/// Beside a task stand what it depends on, how many inputs and outputs it has, and, if it has
/// run, how long it took and how long ago that was.
pub proof fn law_detail_of_a_task(meta: TaskMeta)
    ensures
        ({
            let deps = if meta.deps@.len() == 0 {
                "—"@
            } else {
                join(texts(meta.deps@), ", "@)
            };
            let head = " deps: "@ + deps + "  · in: "@ + dec(meta.inputs_count as nat) + "  · out: "@ + dec(
                meta.outputs_count as nat,
            );
            &&& meta.last_run_ago_secs is None || meta.last_duration_ms is None ==> detail_text(meta) == head
            &&& meta.last_run_ago_secs matches Some(ago) ==> meta.last_duration_ms matches Some(ms)
                ==> ago >= 0 ==> detail_text(meta) == head + "  · last: "@ + duration_text(ms as nat) + " ("@
                + age_text(ago as nat) + " ago)"@
        }),
{
}

/// The card of a task shows its description and its details; a task that nothing is known of
/// is said to be so.
pub proof fn law_card_of_a_task(ctx: LauncherCtx, task: Seq<char>, palette: Palette)
    ensures
        ctx.task_meta@.contains_key(task) ==> {
            let meta = ctx.task_meta@[task];
            let card = task_card(ctx, task, palette);
            &&& card.len() == 2
            &&& meta.description matches Some(text) ==> card[0][0].text == text@ && !card[0][0].italic
            &&& meta.description is None ==> card[0][0].text == "(no description)"@ && card[0][0].italic
            &&& card[1][0].text == detail_text(meta)
        },
        !ctx.task_meta@.contains_key(task) ==> {
            let card = task_card(ctx, task, palette);
            card.len() == 1 && card[0][0].text == "(missing metadata — try /refresh)"@
        },
{
}

/// The cards are drawn under their titles; that of a task exactly while one is highlighted,
/// under its name. Of the runs as many are shown as fit between the borders.
pub proof fn law_cards_are_drawn(panel: StatsPanel, height: u16, r: StatsView)
    requires
        call_ensures(StatsPanel::render, (&panel, height), r),
    ensures
        r.workspace.title@ == " Workspace "@,
        r.cache.title@ == " Cache "@,
        r.session.title@ == " Session "@,
        r.recent.title@ == " Recent runs "@,
        rows(r.workspace.lines@) == workspace_rows(*panel.ctx, *panel.palette),
        rows(r.cache.lines@) == seq![cache_row(*panel.ctx, *panel.palette)],
        rows(r.session.lines@) == seq![session_row(*panel.stats, *panel.palette)],
        r.task is Some <==> panel.state@.highlighted() is Some,
        (r.task matches Some(card) ==> panel.state@.highlighted() matches Some(task) && card.title@
            == " Task: "@ + task + " "@ && rows(card.lines@) == task_card(
            *panel.ctx,
            task,
            *panel.palette,
        )),
        height >= 2 ==> rows(r.recent.lines@) == run_rows(
            panel.state@.history,
            *panel.palette,
            height - 2,
            20,
        ),
        height < 2 ==> rows(r.recent.lines@) == run_rows(panel.state@.history, *panel.palette, 0, 20),
{
}

/// The cards are of what they are made for, and a size is told in its unit.
pub proof fn law_cards_are_of_what_they_are_made_for(
    state: LauncherState,
    stats: SessionStats,
    ctx: LauncherCtx,
    palette: Palette,
    r: StatsPanel,
    bytes: u64,
    text: String,
)
    requires
        call_ensures(StatsPanel::new, (&state, &stats, &ctx, &palette), r),
        call_ensures(format_bytes, (bytes,), text),
    ensures
        *r.state == state && *r.stats == stats && *r.ctx == ctx && *r.palette == palette,
        text@ == bytes_text(bytes as nat),
        bytes < 1024 ==> text@ == dec(bytes as nat) + " B"@,
{
}

} // verus!
