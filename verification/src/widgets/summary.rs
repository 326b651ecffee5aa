//! One line that sums a run up.

use vstd::prelude::*;
use crate::number::{dec, dec_string};
use crate::state::TuiState;
use crate::theme::{Color, Palette};
use crate::widgets::{
    colored, lemma_pieces_push, pieces, plain, plain_span, rows, span, Pane, Piece,
    Span,
};

verus! {

/// One line that sums a run up.
pub struct SummaryWidget<'s> {
    pub state: &'s TuiState,
}

/// The number of tasks, in the range of the counters.
pub open spec fn total(state: TuiState) -> u32 {
    state.task_order@.len() as u32
}

/// `a` less `b`, not below zero.
pub open spec fn less(a: int, b: int) -> int {
    if a >= b {
        a - b
    } else {
        0
    }
}

/// How many tasks have not started.
pub open spec fn pending(state: TuiState) -> int {
    less(
        less(
            less(less(total(state) as int, state.running_count as int), state.done_count as int),
            state.cached_count as int,
        ),
        state.failed_count as int,
    )
}

/// How the run stands, in a word, and its colour.
pub open spec fn standing(state: TuiState, palette: Palette) -> (Seq<char>, Color) {
    if state.run_finished {
        if state.failed_count > 0 {
            ("FAILED"@, palette.failed)
        } else {
            ("DONE"@, palette.done)
        }
    } else if state.running_count > 0 {
        ("RUNNING"@, palette.running)
    } else {
        ("IDLE"@, palette.help)
    }
}

/// The line.
pub open spec fn summary_row(state: TuiState, palette: Palette) -> Seq<Piece> {
    let (word, color) = standing(state, palette);
    seq![
        colored(word, color),
        plain("  "@),
        colored(
            dec((state.done_count + state.cached_count) as nat) + "/"@ + dec(total(state) as nat)
                + " done"@,
            palette.fg,
        ),
        plain("   "@),
        colored("running:"@ + dec(state.running_count as nat), palette.running),
        plain("  "@),
        colored("cached:"@ + dec(state.cached_count as nat), palette.cached),
        plain("  "@),
        colored("failed:"@ + dec(state.failed_count as nat), palette.failed),
        plain("  "@),
        colored("queued:"@ + dec(pending(state) as nat), palette.queued),
    ]
}

/// `head` and the number.
fn counted(head: &str, n: u32) -> (r: String)
    ensures
        r@ == head@ + dec(n as nat),
{
    let mut r = head.to_owned();
    let digits = dec_string(n as u128);
    r.append(digits.as_str());
    r
}

impl<'s> SummaryWidget<'s> {
    /// The line for the state.
    pub fn new(state: &'s TuiState) -> (r: SummaryWidget<'s>)
        ensures
            *r.state == *state,
    {
        SummaryWidget { state }
    }

    /// The line in the colours of the palette.
    pub fn render(&self, palette: &Palette) -> (r: Pane)
        requires
            self.state.done_count + self.state.cached_count <= u32::MAX,
        ensures
            r.title@.len() == 0,
            r.border == palette.accent,
            r.selected is None,
            rows(r.lines@) == seq![summary_row(*self.state, *palette)],
    {
        broadcast use lemma_pieces_push;
        let total: u32 = self.state.task_order.len() as u32;
        let running: u32 = self.state.running_count;
        let done: u32 = self.state.done_count;
        let cached: u32 = self.state.cached_count;
        let failed: u32 = self.state.failed_count;
        let pending: u32 = total.saturating_sub(running).saturating_sub(done).saturating_sub(
            cached,
        ).saturating_sub(failed);
        let (word, color) = if self.state.run_finished {
            if failed > 0 {
                ("FAILED", palette.failed)
            } else {
                ("DONE", palette.done)
            }
        } else if running > 0 {
            ("RUNNING", palette.running)
        } else {
            ("IDLE", palette.help)
        };
        let mut line: Vec<Span> = Vec::new();
        assert(pieces(line@) =~= Seq::<Piece>::empty());
        line.push(span(word.to_owned(), color));
        line.push(plain_span("  "));
        let mut text = dec_string((done + cached) as u128);
        text.append("/");
        let all = dec_string(total as u128);
        text.append(all.as_str());
        text.append(" done");
        line.push(span(text, palette.fg));
        line.push(plain_span("   "));
        line.push(span(counted("running:", running), palette.running));
        line.push(plain_span("  "));
        line.push(span(counted("cached:", cached), palette.cached));
        line.push(plain_span("  "));
        line.push(span(counted("failed:", failed), palette.failed));
        line.push(plain_span("  "));
        line.push(span(counted("queued:", pending), palette.queued));
        assert(pieces(line@) =~= summary_row(*self.state, *palette));
        let mut lines: Vec<Vec<Span>> = Vec::new();
        lines.push(line);
        assert(rows(lines@) =~= seq![summary_row(*self.state, *palette)]);
        Pane { title: String::new(), border: palette.accent, lines, selected: None }
    }
}

/// The line tells how the run stands: failed if it has finished with a failure, done if it has
/// finished without, running while a task runs, idle otherwise; each in the colour of that
/// state.
pub proof fn law_line_tells_how_the_run_stands(state: TuiState, palette: Palette)
    ensures
        ({
            let piece = summary_row(state, palette)[0];
            &&& state.run_finished && state.failed_count > 0 ==> piece.text == "FAILED"@ && piece.color
                == Some(palette.failed)
            &&& state.run_finished && state.failed_count == 0 ==> piece.text == "DONE"@ && piece.color
                == Some(palette.done)
            &&& !state.run_finished && state.running_count > 0 ==> piece.text == "RUNNING"@ && piece.color
                == Some(palette.running)
            &&& !state.run_finished && state.running_count == 0 ==> piece.text == "IDLE"@ && piece.color
                == Some(palette.help)
        }),
{
}

/// The line counts the tasks: how many of all are done, those from the cache among them, how
/// many run, came from the cache and failed, and all that are left as queued.
pub proof fn law_line_counts_the_tasks(state: TuiState, palette: Palette, queued: nat)
    requires
        state.task_order@.len() <= u32::MAX,
        state.running_count + state.done_count + state.cached_count + state.failed_count + queued
            == state.task_order@.len(),
    ensures
        ({
            let row = summary_row(state, palette);
            &&& row[2].text == dec((state.done_count + state.cached_count) as nat) + "/"@ + dec(
                state.task_order@.len(),
            ) + " done"@
            &&& row[4].text == "running:"@ + dec(state.running_count as nat)
            &&& row[6].text == "cached:"@ + dec(state.cached_count as nat)
            &&& row[8].text == "failed:"@ + dec(state.failed_count as nat)
            &&& row[10].text == "queued:"@ + dec(queued)
            &&& row[4].color == Some(palette.running)
            &&& row[6].color == Some(palette.cached)
            &&& row[8].color == Some(palette.failed)
            &&& row[10].color == Some(palette.queued)
        }),
{
    assert(total(state) == state.task_order@.len());
    assert(pending(state) == queued);
}

/// The line is all that is drawn.
pub proof fn law_summary_is_one_line(widget: SummaryWidget, palette: Palette, r: Pane)
    requires
        call_ensures(SummaryWidget::render, (&widget, &palette), r),
    ensures
        r.lines@.len() == 1,
        pieces(r.lines@[0]@) == summary_row(*widget.state, palette),
        r.title@.len() == 0,
        r.selected is None,
        r.border == palette.accent,
{
    assert(rows(r.lines@).len() == r.lines@.len());
    assert(rows(r.lines@)[0] == pieces(r.lines@[0]@));
}

/// It is of the state that it is made for.
pub proof fn law_summary_is_of_its_state(
    state: TuiState,
    r: SummaryWidget,
)
    requires
        call_ensures(SummaryWidget::new, (&state,), r),
    ensures
        *r.state == state,
{
}

} // verus!
