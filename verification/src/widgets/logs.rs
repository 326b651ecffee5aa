//! The log of the selected task.

use vstd::prelude::*;
use crate::event::LogStream;
use crate::number::{dec, dec_string};
use crate::state::{LogLineRecord, TaskInfo, TuiState};
use crate::theme::{Color, Palette};
use crate::widgets::{
    colored, lemma_rows_push, line_of, pieces, rows, span, Pane, Piece, Span,
};

verus! {

/// The log of the selected task.
pub struct LogsWidget<'s> {
    pub state: &'s TuiState,
    pub palette: &'s Palette,
}

/// The title of the log.
pub open spec fn logs_title(state: TuiState) -> Seq<char> {
    match state.selection() {
        Some(name) => if state.tasks@.contains_key(name) && state.tasks@[name].scrollback > 0 {
            " Logs · "@ + name + " · ↑"@ + dec(state.tasks@[name].scrollback as nat) + " "@
        } else {
            " Logs · "@ + name + " "@
        },
        None => " Logs "@,
    }
}

/// The colour of a line of output.
pub open spec fn stream_color(stream: LogStream, palette: Palette) -> Color {
    match stream {
        LogStream::Stdout => palette.stdout,
        LogStream::Stderr => palette.stderr,
    }
}

/// The line for a line of output.
pub open spec fn record_row(record: LogLineRecord, palette: Palette) -> Seq<Piece> {
    seq![colored(record.line@, stream_color(record.stream, palette))]
}

/// The line for a task that has written nothing.
pub open spec fn empty_row(info: TaskInfo, palette: Palette) -> Seq<Piece> {
    match info.current_phase {
        Some(phase) => seq![
            colored("  (no logs yet · current phase: "@ + phase.label@ + ")"@, palette.help),
        ],
        None => seq![colored("  (no logs)"@, palette.help)],
    }
}

/// The first line of output below the view: as many lines from the end as the
/// view is scrolled up.
pub open spec fn view_end(info: TaskInfo) -> int {
    if info.scrollback <= info.logs@.len() {
        info.logs@.len() - info.scrollback
    } else {
        0
    }
}

/// The first line of output in a view of `height` lines.
pub open spec fn view_start(info: TaskInfo, height: int) -> int {
    if view_end(info) >= height {
        view_end(info) - height
    } else {
        0
    }
}

/// The lines of output in a view of `height` lines.
pub open spec fn log_rows(info: TaskInfo, palette: Palette, height: int) -> Seq<Seq<Piece>> {
    let start = view_start(info, height);
    Seq::new(
        (view_end(info) - start) as nat,
        |i: int| record_row(info.logs@[start + i], palette),
    )
}

/// The error of the task, shown while the view is at the last line.
pub open spec fn error_rows(info: TaskInfo, palette: Palette) -> Seq<Seq<Piece>> {
    match info.error {
        Some(error) if info.scrollback == 0 => seq![
            seq![colored("error: "@ + error@, palette.failed)],
        ],
        _ => Seq::empty(),
    }
}

/// The lines of the log in a frame of `height` lines, two of which are its
/// border.
pub open spec fn logs_rows(state: TuiState, palette: Palette, height: int) -> Seq<Seq<Piece>> {
    match state.selection() {
        Some(name) => if state.tasks@.contains_key(name) {
            let info = state.tasks@[name];
            let body = if info.logs@.len() == 0 {
                seq![empty_row(info, palette)]
            } else {
                log_rows(
                    info,
                    palette,
                    if height >= 2 {
                        height - 2
                    } else {
                        0
                    },
                )
            };
            body + error_rows(info, palette)
        } else {
            Seq::empty()
        },
        None => seq![seq![colored("  (no task selected)"@, palette.help)]],
    }
}

impl<'s> LogsWidget<'s> {
    /// The log in the colours of the palette.
    pub fn new(state: &'s TuiState, palette: &'s Palette) -> (r: LogsWidget<'s>)
        ensures
            *r.state == *state,
            *r.palette == *palette,
    {
        LogsWidget { state, palette }
    }

    /// The line for a task that has written nothing.
    fn empty_message(&self, info: &TaskInfo) -> (r: Vec<Span>)
        ensures
            pieces(r@) == empty_row(*info, *self.palette),
    {
        let text = match &info.current_phase {
            Some(phase) => {
                let mut text = "  (no logs yet · current phase: ".to_owned();
                text.append(phase.label.as_str());
                text.append(")");
                text
            },
            None => "  (no logs)".to_owned(),
        };
        line_of(span(text, self.palette.help))
    }

    /// The title of the log.
    fn title(&self) -> (r: String)
        requires
            self.state.wf(),
        ensures
            r@ == logs_title(*self.state),
    {
        match self.state.selected_task() {
            Some(name) => {
                let mut title = " Logs · ".to_owned();
                title.append(name);
                let up: usize = match self.state.tasks.get(name) {
                    Some(info) => info.scrollback,
                    None => 0,
                };
                if up > 0 {
                    title.append(" · ↑");
                    let n = dec_string(up as u128);
                    title.append(n.as_str());
                }
                title.append(" ");
                title
            },
            None => " Logs ".to_owned(),
        }
    }

    /// The log in a frame of `height` lines.
    pub fn render(&self, height: u16) -> (r: Pane)
        requires
            self.state.wf(),
        ensures
            r.title@ == logs_title(*self.state),
            r.border == self.palette.accent,
            r.selected is None,
            rows(r.lines@) == logs_rows(*self.state, *self.palette, height as int),
    {
        broadcast use lemma_rows_push;
        let mut lines: Vec<Vec<Span>> = Vec::new();
        assert(rows(lines@) =~= Seq::<Seq<Piece>>::empty());
        match self.state.selected_task() {
            Some(name) => {
                if let Some(info) = self.state.tasks.get(name) {
                    if info.logs.len() == 0 {
                        lines.push(self.empty_message(info));
                        assert(rows(lines@) =~= seq![empty_row(*info, *self.palette)]);
                    } else {
                        let max_visible: usize = (height as usize).saturating_sub(2);
                        let end: usize = info.logs.len().saturating_sub(info.scrollback);
                        let start: usize = end.saturating_sub(max_visible);
                        let mut i: usize = start;
                        let ghost all = log_rows(*info, *self.palette, max_visible as int);
                        assert(all.take(0) =~= Seq::<Seq<Piece>>::empty());
                        while i < end
                            invariant
                                start <= i <= end <= info.logs@.len(),
                                all == log_rows(*info, *self.palette, max_visible as int),
                                start == view_start(*info, max_visible as int),
                                end == view_end(*info),
                                rows(lines@) == all.take(i - start),
                            decreases end - i,
                        {
                            broadcast use lemma_rows_push;
                            let record = &info.logs[i];
                            let color = match record.stream {
                                LogStream::Stdout => self.palette.stdout,
                                LogStream::Stderr => self.palette.stderr,
                            };
                            lines.push(line_of(span(record.line.clone(), color)));
                            assert(all.take(i - start + 1) =~= all.take(i - start).push(
                                all[i - start],
                            ));
                            i += 1;
                        }
                        assert(all.take(end - start) =~= all);
                    }
                    let ghost body = rows(lines@);
                    if info.scrollback == 0 {
                        if let Some(error) = &info.error {
                            let mut text = "error: ".to_owned();
                            text.append(error.as_str());
                            lines.push(line_of(span(text, self.palette.failed)));
                        }
                    }
                    assert(rows(lines@) =~= body + error_rows(*info, *self.palette));
                }
            },
            None => {
                lines.push(line_of(span("  (no task selected)".to_owned(), self.palette.help)));
                assert(rows(lines@) =~= seq![
                    seq![colored("  (no task selected)"@, self.palette.help)],
                ]);
            },
        }
        Pane { title: self.title(), border: self.palette.accent, lines, selected: None }
    }
}

/// While the view follows the log, its last line of output is the last one
/// written.
pub proof fn law_following_view_ends_with_last_line(info: TaskInfo, palette: Palette, height: int)
    requires
        info.view_ok(),
        info.follow_tail,
        info.logs@.len() > 0,
        height > 0,
    ensures
        log_rows(info, palette, height).len() > 0,
        log_rows(info, palette, height).last() == record_row(info.logs@.last(), palette),
{
}

/// However far the view is scrolled up, it shows at least one line of output,
/// and no more than fit.
pub proof fn law_view_is_never_empty(info: TaskInfo, palette: Palette, height: int)
    requires
        info.view_ok(),
        info.logs@.len() > 0,
        height > 0,
    ensures
        0 < log_rows(info, palette, height).len() <= height,
{
}

/// A view of the log shows the lines that end as many lines above the last one as it is
/// scrolled up, in the order in which they were written, as many as fit.
pub proof fn law_view_shows_the_lines_in_order(info: TaskInfo, palette: Palette, height: nat, i: int)
    requires
        info.view_ok(),
    ensures
        ({
            let shown = log_rows(info, palette, height as int);
            let end = info.logs@.len() - info.scrollback;
            &&& end >= height ==> shown.len() == height
            &&& end < height ==> shown.len() == end
            &&& 0 <= i < shown.len() ==> shown[i].len() == 1 && shown[i][0].text == info.logs@[end
                - shown.len() + i].line@
        }),
{
}

/// What was written to the error stream has the colour for that, and anything else that of the
/// output.
pub proof fn law_streams_have_their_colours(record: LogLineRecord, palette: Palette)
    ensures
        record_row(record, palette)[0].text == record.line@,
        record.stream == LogStream::Stderr ==> record_row(record, palette)[0].color == Some(palette.stderr),
        record.stream == LogStream::Stdout ==> record_row(record, palette)[0].color == Some(palette.stdout),
{
}

/// The log that is shown is that of the task under the cursor, which the title names, with how
/// far the view is scrolled up if it is. Behind its last line stands the error of the task, in
/// the colour of a failure. A frame has two lines of border.
pub proof fn law_log_of_the_task_under_the_cursor(widget: LogsWidget, height: u16, r: Pane, name: Seq<char>)
    requires
        call_ensures(LogsWidget::render, (&widget, height), r),
        widget.state.selection() == Some(name),
        widget.state.tasks@.contains_key(name),
        height >= 2,
    ensures
        ({
            let info = widget.state.tasks@[name];
            let shown = rows(r.lines@);
            let body: Seq<Seq<Piece>> = if info.logs@.len() == 0 {
                seq![empty_row(info, *widget.palette)]
            } else {
                log_rows(info, *widget.palette, height - 2)
            };
            &&& info.scrollback == 0 ==> r.title@ == " Logs · "@ + name + " "@
            &&& info.scrollback > 0 ==> r.title@ == " Logs · "@ + name + " · ↑"@ + dec(
                info.scrollback as nat,
            ) + " "@
            &&& info.error is None || info.scrollback > 0 ==> shown == body
            &&& info.scrollback == 0 ==> (info.error matches Some(error) ==> {
                &&& shown.len() == body.len() + 1
                &&& body.is_prefix_of(shown)
                &&& shown.last()[0].text == "error: "@ + error@
                &&& shown.last()[0].color == Some(widget.palette.failed)
            })
        }),
{
    let info = widget.state.tasks@[name];
    let body: Seq<Seq<Piece>> = if info.logs@.len() == 0 {
        seq![empty_row(info, *widget.palette)]
    } else {
        log_rows(info, *widget.palette, height - 2)
    };
    assert(body + Seq::<Seq<Piece>>::empty() =~= body);
}

/// A task that has written nothing is said to have written nothing, with the phase that it is
/// in if it is in one; without a task under the cursor one line says so.
pub proof fn law_empty_log_is_told(info: TaskInfo, palette: Palette, state: TuiState, height: int)
    requires
        state.selection() is None,
    ensures
        info.current_phase is None ==> empty_row(info, palette)[0].text == "  (no logs)"@,
        (info.current_phase matches Some(phase) ==> empty_row(info, palette)[0].text
            == "  (no logs yet · current phase: "@ + phase.label@ + ")"@),
        logs_rows(state, palette, height).len() == 1,
        logs_rows(state, palette, height)[0][0].text == "  (no task selected)"@,
        logs_title(state) == " Logs "@,
{
}

/// It is of the state that it is made for.
pub proof fn law_logs_are_of_their_state(
    state: TuiState,
    palette: Palette,
    r: LogsWidget,
)
    requires
        call_ensures(LogsWidget::new, (&state, &palette), r),
    ensures
        *r.state == state && *r.palette == palette,
{
}

} // verus!
