//! The launcher screen.

use vstd::prelude::*;
use crate::launcher::{
    slices, LauncherState, RunHistoryEntry, RunOutcome,
};
use crate::number::{dec, dec_string};
use crate::text::{pad_right, padded_right};
use crate::theme::{Color, Palette};
use crate::time::{duration_text, format_dur};
use crate::widgets::{
    bold_span, colored, lemma_pieces_push, lemma_rows_push, line_of, pieces, plain, plain_span,
    rows, span, strong, Pane, Piece, Span,
};

verus! {

/// The launcher screen.
pub struct LauncherWidget<'s> {
    pub state: &'s LauncherState,
    pub palette: &'s Palette,
    pub workspace: &'s str,
    pub theme_name: &'s str,
}

/// The parts of the launcher screen, from top to bottom.
#[derive(Debug, Clone)]
pub struct LauncherView {
    pub header: Pane,
    pub tasks: Pane,
    pub history: Pane,
    pub status: Vec<Span>,
    pub input: Pane,
    pub help: Vec<Span>,
}

/// How many runs the screen shows.
pub const RUNS_SHOWN: usize = 5;

/// The icon of a run and its colour.
pub open spec fn outcome_icon(outcome: RunOutcome, palette: Palette) -> (Seq<char>, Color) {
    match outcome {
        RunOutcome::Success => ("✓"@, palette.done),
        RunOutcome::Failed => ("✗"@, palette.failed),
        RunOutcome::Cancelled => ("⊘"@, palette.queued),
    }
}

/// The line of a run, with the target in a field of `width` characters.
pub open spec fn run_row(entry: RunHistoryEntry, palette: Palette, width: nat) -> Seq<Piece> {
    let (mark, color) = outcome_icon(entry.outcome, palette);
    seq![
        colored(" "@ + mark + " "@, color),
        colored(pad_right(entry.target@, width), palette.fg),
        colored(duration_text((entry.duration.nanos / 1_000_000) as nat), palette.help),
    ]
}

/// The line of a run.
pub fn run_line(entry: &RunHistoryEntry, palette: &Palette, width: usize) -> (r: Vec<Span>)
    ensures
        pieces(r@) == run_row(*entry, *palette, width as nat),
{
    broadcast use lemma_pieces_push;
    let (mark, color) = match entry.outcome {
        RunOutcome::Success => ("✓", palette.done),
        RunOutcome::Failed => ("✗", palette.failed),
        RunOutcome::Cancelled => ("⊘", palette.queued),
    };
    let mut line: Vec<Span> = Vec::new();
    assert(pieces(line@) =~= Seq::<Piece>::empty());
    let mut text = " ".to_owned();
    text.append(mark);
    text.append(" ");
    line.push(span(text, color));
    line.push(span(padded_right(entry.target.as_str(), width), palette.fg));
    line.push(span(format_dur(entry.duration), palette.help));
    assert(pieces(line@) =~= run_row(*entry, *palette, width as nat));
    line
}

/// The lines of the newest runs, at most `most` of them.
pub open spec fn run_rows(
    history: Seq<RunHistoryEntry>,
    palette: Palette,
    most: int,
    width: nat,
) -> Seq<Seq<Piece>> {
    if history.len() == 0 {
        seq![seq![colored("  (no runs yet this session)"@, palette.help)]]
    } else {
        Seq::new(
            (if history.len() < most {
                history.len() as int
            } else {
                most
            }) as nat,
            |i: int| run_row(history[i], palette, width),
        )
    }
}

/// The lines of the newest runs, at most `most` of them.
pub fn run_lines(
    history: &Vec<RunHistoryEntry>,
    palette: &Palette,
    most: usize,
    width: usize,
) -> (r: Vec<Vec<Span>>)
    ensures
        rows(r@) == run_rows(history@, *palette, most as int, width as nat),
{
    let mut lines: Vec<Vec<Span>> = Vec::new();
    if history.len() == 0 {
        lines.push(line_of(span("  (no runs yet this session)".to_owned(), palette.help)));
        assert(rows(lines@) =~= run_rows(history@, *palette, most as int, width as nat));
        return lines;
    }
    let n: usize = if history.len() < most {
        history.len()
    } else {
        most
    };
    let ghost all = run_rows(history@, *palette, most as int, width as nat);
    let mut i: usize = 0;
    assert(rows(lines@) =~= all.take(0));
    while i < n
        invariant
            history@.len() > 0,
            i <= n <= history@.len(),
            all == run_rows(history@, *palette, most as int, width as nat),
            n == all.len(),
            rows(lines@) == all.take(i as int),
        decreases n - i,
    {
        broadcast use lemma_rows_push;
        lines.push(run_line(&history[i], palette, width));
        assert(all.take(i + 1) =~= all.take(i as int).push(all[i as int]));
        i += 1;
    }
    assert(all.take(n as int) =~= all);
    lines
}

/// The lines of the list of tasks.
pub open spec fn task_rows(listed: Seq<Seq<char>>, palette: Palette) -> Seq<Seq<Piece>> {
    if listed.len() == 0 {
        seq![seq![colored("  (no tasks match this filter)"@, palette.help)]]
    } else {
        Seq::new(listed.len(), |i: int| seq![colored(listed[i], palette.fg)])
    }
}

impl<'s> LauncherWidget<'s> {
    /// The screen in the colours of the palette.
    pub fn new(
        state: &'s LauncherState,
        palette: &'s Palette,
        workspace: &'s str,
        theme_name: &'s str,
    ) -> (r: LauncherWidget<'s>)
        ensures
            *r.state == *state,
            *r.palette == *palette,
            r.workspace@ == workspace@,
            r.theme_name@ == theme_name@,
    {
        LauncherWidget { state, palette, workspace, theme_name }
    }

    /// The parts of the screen.
    pub fn render(&self) -> (r: LauncherView)
        ensures
            r.header.is_text(self.palette.accent),
            r.header.title@ == " broski tui "@,
            rows(r.header.lines@) == seq![
                seq![
                    colored("workspace: "@, self.palette.help),
                    colored(self.workspace@, self.palette.fg),
                    colored("   theme: "@, self.palette.help),
                    colored(self.theme_name@, self.palette.fg),
                ],
            ],
            r.tasks.border == self.palette.accent,
            r.tasks.title@ == " Tasks ("@ + dec(self.state@.filtered().len()) + " of "@ + dec(
                self.state@.all_tasks.len(),
            ) + ") "@,
            rows(r.tasks.lines@) == task_rows(self.state@.filtered(), *self.palette),
            r.tasks.selected == (if self.state@.filtered().len() == 0 {
                None
            } else {
                self.state@.selected
            }),
            r.history.is_text(self.palette.accent),
            r.history.title@ == " Recent runs "@,
            rows(r.history.lines@) == run_rows(
                self.state@.history,
                *self.palette,
                RUNS_SHOWN as int,
                24,
            ),
            pieces(r.status@) == seq![
                match self.state@.status {
                    Some(text) => colored(" "@ + text, self.palette.eta),
                    None => plain(""@),
                },
            ],
            r.input.is_text(self.palette.accent),
            r.input.title@ == Seq::<char>::empty(),
            rows(r.input.lines@) == seq![
                seq![
                    strong(" > "@, self.palette.accent),
                    colored(self.state@.input, self.palette.fg),
                    colored("▍"@, self.palette.accent),
                ],
            ],
            pieces(r.help@) == seq![
                colored(
                    " ↑/↓ select · Tab complete · Enter run · Esc clear · q / Ctrl-C quit "@,
                    self.palette.help,
                ),
            ],
    {
        LauncherView {
            header: self.render_header(),
            tasks: self.render_tasks(),
            history: self.render_history(),
            status: self.render_status(),
            input: self.render_input(),
            help: line_of(
                span(
                    " ↑/↓ select · Tab complete · Enter run · Esc clear · q / Ctrl-C quit ".to_owned(),
                    self.palette.help,
                ),
            ),
        }
    }

    /// The workspace and the theme.
    fn render_header(&self) -> (r: Pane)
        ensures
            r.is_text(self.palette.accent),
            r.title@ == " broski tui "@,
            rows(r.lines@) == seq![
                seq![
                    colored("workspace: "@, self.palette.help),
                    colored(self.workspace@, self.palette.fg),
                    colored("   theme: "@, self.palette.help),
                    colored(self.theme_name@, self.palette.fg),
                ],
            ],
    {
        broadcast use lemma_pieces_push;
        let mut line: Vec<Span> = Vec::new();
        line.push(span("workspace: ".to_owned(), self.palette.help));
        line.push(span(self.workspace.to_owned(), self.palette.fg));
        line.push(span("   theme: ".to_owned(), self.palette.help));
        line.push(span(self.theme_name.to_owned(), self.palette.fg));
        let ghost want = seq![
            colored("workspace: "@, self.palette.help),
            colored(self.workspace@, self.palette.fg),
            colored("   theme: "@, self.palette.help),
            colored(self.theme_name@, self.palette.fg),
        ];
        assert(pieces(line@) =~= want);
        let mut lines: Vec<Vec<Span>> = Vec::new();
        lines.push(line);
        assert(rows(lines@) =~= seq![want]);
        Pane { title: " broski tui ".to_owned(), border: self.palette.accent, lines, selected: None }
    }

    /// The tasks that match what is typed.
    fn render_tasks(&self) -> (r: Pane)
        ensures
            r.border == self.palette.accent,
            r.title@ == " Tasks ("@ + dec(self.state@.filtered().len()) + " of "@ + dec(
                self.state@.all_tasks.len(),
            ) + ") "@,
            rows(r.lines@) == task_rows(self.state@.filtered(), *self.palette),
            r.selected == (if self.state@.filtered().len() == 0 {
                None
            } else {
                self.state@.selected
            }),
    {
        let filtered = self.state.filtered_tasks();
        let ghost listed = self.state@.filtered();
        assert(filtered@.len() == listed.len());
        let mut title = " Tasks (".to_owned();
        let n = dec_string(filtered.len() as u128);
        title.append(n.as_str());
        title.append(" of ");
        let n = dec_string(self.state.all_tasks.len() as u128);
        title.append(n.as_str());
        title.append(") ");
        let mut lines: Vec<Vec<Span>> = Vec::new();
        if filtered.len() == 0 {
            lines.push(
                line_of(span("  (no tasks match this filter)".to_owned(), self.palette.help)),
            );
            assert(rows(lines@) =~= task_rows(listed, *self.palette));
            return Pane { title, border: self.palette.accent, lines, selected: None };
        }
        let ghost all = task_rows(listed, *self.palette);
        let mut i: usize = 0;
        assert(rows(lines@) =~= all.take(0));
        while i < filtered.len()
            invariant
                slices(filtered@) == listed,
                listed.len() > 0,
                i <= filtered.len(),
                all == task_rows(listed, *self.palette),
                rows(lines@) == all.take(i as int),
            decreases filtered.len() - i,
        {
            broadcast use lemma_rows_push;
            assert(listed[i as int] == filtered@[i as int]@);
            lines.push(line_of(span(filtered[i].to_owned(), self.palette.fg)));
            assert(all.take(i + 1) =~= all.take(i as int).push(all[i as int]));
            i += 1;
        }
        assert(all.take(all.len() as int) =~= all);
        Pane { title, border: self.palette.accent, lines, selected: self.state.selected }
    }

    /// The newest runs.
    fn render_history(&self) -> (r: Pane)
        ensures
            r.is_text(self.palette.accent),
            r.title@ == " Recent runs "@,
            rows(r.lines@) == run_rows(self.state@.history, *self.palette, RUNS_SHOWN as int, 24),
    {
        let lines = run_lines(&self.state.history, self.palette, RUNS_SHOWN, 24);
        Pane { title: " Recent runs ".to_owned(), border: self.palette.accent, lines, selected: None }
    }

    /// The message.
    fn render_status(&self) -> (r: Vec<Span>)
        ensures
            pieces(r@) == seq![
                match self.state@.status {
                    Some(text) => colored(" "@ + text, self.palette.eta),
                    None => plain(""@),
                },
            ],
    {
        match &self.state.status {
            Some(message) => {
                let mut text = " ".to_owned();
                text.append(message.as_str());
                line_of(span(text, self.palette.eta))
            },
            None => line_of(plain_span("")),
        }
    }

    /// The input line.
    fn render_input(&self) -> (r: Pane)
        ensures
            r.is_text(self.palette.accent),
            r.title@ == Seq::<char>::empty(),
            rows(r.lines@) == seq![
                seq![
                    strong(" > "@, self.palette.accent),
                    colored(self.state@.input, self.palette.fg),
                    colored("▍"@, self.palette.accent),
                ],
            ],
    {
        broadcast use lemma_pieces_push;
        let mut line: Vec<Span> = Vec::new();
        line.push(bold_span(" > ".to_owned(), self.palette.accent));
        line.push(span(self.state.input.clone(), self.palette.fg));
        line.push(span("▍".to_owned(), self.palette.accent));
        let ghost want = seq![
            strong(" > "@, self.palette.accent),
            colored(self.state@.input, self.palette.fg),
            colored("▍"@, self.palette.accent),
        ];
        assert(pieces(line@) =~= want);
        let mut lines: Vec<Vec<Span>> = Vec::new();
        lines.push(line);
        assert(rows(lines@) =~= seq![want]);
        Pane { title: String::new(), border: self.palette.accent, lines, selected: None }
    }
}

/// A run is shown with the mark of how it ended, its target and how long it took. The marks of
/// success, failure and cancel differ.
pub proof fn law_run_is_shown_with_its_mark(entry: RunHistoryEntry, palette: Palette, width: nat)
    ensures
        ({
            let row = run_row(entry, palette, width);
            &&& row.len() == 3
            &&& entry.outcome == RunOutcome::Success ==> row[0].text == " "@ + "✓"@ + " "@ && row[0].color
                == Some(palette.done)
            &&& entry.outcome == RunOutcome::Failed ==> row[0].text == " "@ + "✗"@ + " "@ && row[0].color
                == Some(palette.failed)
            &&& entry.outcome == RunOutcome::Cancelled ==> row[0].text == " "@ + "⊘"@ + " "@ && row[0].color
                == Some(palette.queued)
            &&& row[1].text == pad_right(entry.target@, width)
            &&& row[2].text == duration_text((entry.duration.nanos / 1_000_000) as nat)
        }),
{
}

/// The newest runs are shown, the newest first, as many as there is room for; before the first
/// run one line says that there is none.
pub proof fn law_newest_runs_are_shown(
    history: Seq<RunHistoryEntry>,
    palette: Palette,
    most: nat,
    width: nat,
    i: int,
)
    ensures
        history.len() == 0 ==> run_rows(history, palette, most as int, width).len() == 1 && run_rows(
            history,
            palette,
            most as int,
            width,
        )[0][0].text == "  (no runs yet this session)"@,
        0 < history.len() <= most ==> run_rows(history, palette, most as int, width).len() == history.len(),
        history.len() > most ==> run_rows(history, palette, most as int, width).len() == most,
        0 <= i < history.len() && i < most ==> run_rows(history, palette, most as int, width)[i]
            == run_row(history[i], palette, width),
{
}

/// The screen shows where it is and with which theme, the tasks that match what is typed with
/// how many they are of all, the five newest runs, the message, and the line as it was typed.
pub proof fn law_screen_shows_the_session(widget: LauncherWidget, r: LauncherView, i: int)
    requires
        call_ensures(LauncherWidget::render, (&widget,), r),
    ensures
        r.header.lines@.len() == 1,
        ({
            let line = pieces(r.header.lines@[0]@);
            &&& line.len() == 4
            &&& line[0].text == "workspace: "@ && line[1].text == widget.workspace@
            &&& line[2].text == "   theme: "@ && line[3].text == widget.theme_name@
        }),
        r.tasks.title@ == " Tasks ("@ + dec(widget.state@.filtered().len()) + " of "@ + dec(
            widget.state@.all_tasks.len(),
        ) + ") "@,
        widget.state@.filtered().len() > 0 ==> r.tasks.lines@.len() == widget.state@.filtered().len()
            && r.tasks.selected == widget.state@.selected,
        widget.state@.filtered().len() == 0 ==> r.tasks.selected is None,
        0 <= i < widget.state@.filtered().len() ==> pieces(r.tasks.lines@[i]@) == seq![
            colored(widget.state@.filtered()[i], widget.palette.fg),
        ],
        rows(r.history.lines@) == run_rows(widget.state@.history, *widget.palette, 5, 24),
        (widget.state@.status matches Some(text) ==> pieces(r.status@)[0].text == " "@ + text),
        widget.state@.status is None ==> pieces(r.status@)[0].text.len() == 0,
        r.input.lines@.len() == 1,
        ({
            let line = pieces(r.input.lines@[0]@);
            &&& line.len() == 3
            &&& line[0].text == " > "@ && line[0].bold
            &&& line[1].text == widget.state@.input
        }),
        pieces(r.help@)[0].text
            == " ↑/↓ select · Tab complete · Enter run · Esc clear · q / Ctrl-C quit "@,
{
    reveal_strlit("");
    assert(rows(r.header.lines@).len() == r.header.lines@.len());
    assert(rows(r.header.lines@)[0] == pieces(r.header.lines@[0]@));
    assert(rows(r.tasks.lines@).len() == r.tasks.lines@.len());
    if 0 <= i < widget.state@.filtered().len() {
        assert(rows(r.tasks.lines@)[i] == pieces(r.tasks.lines@[i]@));
    }
    assert(rows(r.input.lines@).len() == r.input.lines@.len());
    assert(rows(r.input.lines@)[0] == pieces(r.input.lines@[0]@));
}

/// The screen is of what it is made for, and the lines of the runs are those of the newest.
pub proof fn law_screen_is_of_what_it_is_made_for(
    state: LauncherState,
    palette: Palette,
    workspace: &str,
    theme: &str,
    r: LauncherWidget,
    history: Vec<RunHistoryEntry>,
    most: usize,
    width: usize,
    lines: Vec<Vec<Span>>,
    i: int,
)
    requires
        call_ensures(LauncherWidget::new, (&state, &palette, workspace, theme), r),
        call_ensures(run_lines, (&history, &palette, most, width), lines),
    ensures
        *r.state == state && *r.palette == palette,
        r.workspace@ == workspace@ && r.theme_name@ == theme@,
        history@.len() == 0 ==> lines@.len() == 1,
        0 < history@.len() <= most ==> lines@.len() == history@.len(),
        history@.len() > most ==> lines@.len() == most,
        0 <= i < history@.len() && i < most ==> pieces(lines@[i]@) == run_row(
            history@[i],
            palette,
            width as nat,
        ),
{
    assert(rows(lines@).len() == lines@.len());
    if 0 <= i < lines@.len() {
        assert(rows(lines@)[i] == pieces(lines@[i]@));
    }
}

} // verus!
