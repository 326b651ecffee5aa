//! The list of the tasks, layer by layer.

use vstd::prelude::*;
use crate::single::{format_duration, is_showable, span_text};
use crate::state::{flattened, TaskState, TuiState};
use crate::theme::{Color, Palette};
use crate::widgets::{
    colored, lemma_pieces_push, lemma_rows_push, line_of, pieces, rows, span, Pane, Piece, Span,
};

verus! {

/// The list of the tasks of a run.
pub struct DagWidget<'s> {
    pub state: &'s TuiState,
    pub palette: &'s Palette,
}

/// The icon of a task and its colour.
pub open spec fn icon(state: Option<TaskState>, palette: Palette) -> (Seq<char>, Color) {
    match state {
        Some(TaskState::Running) => ("●"@, palette.running),
        Some(TaskState::Done) => ("✓"@, palette.done),
        Some(TaskState::Cached) => ("⊙"@, palette.cached),
        Some(TaskState::Failed) => ("✗"@, palette.failed),
        Some(TaskState::DryRun) => ("·"@, palette.queued),
        Some(TaskState::Skipped) => ("⊘"@, palette.queued),
        Some(TaskState::Queued) => ("○"@, palette.queued),
        None => ("○"@, palette.queued),
    }
}

/// The icon of a task and its colour.
pub fn task_icon(state: Option<TaskState>, palette: &Palette) -> (r: (&'static str, Color))
    ensures
        (r.0@, r.1) == icon(state, *palette),
{
    match state {
        Some(TaskState::Running) => ("●", palette.running),
        Some(TaskState::Done) => ("✓", palette.done),
        Some(TaskState::Cached) => ("⊙", palette.cached),
        Some(TaskState::Failed) => ("✗", palette.failed),
        Some(TaskState::DryRun) => ("·", palette.queued),
        Some(TaskState::Skipped) => ("⊘", palette.queued),
        Some(TaskState::Queued) | None => ("○", palette.queued),
    }
}

/// The line of a task: its icon and name, how long it took, and how long it is
/// expected to take while it is not done.
pub open spec fn task_line(state: TuiState, palette: Palette, name: Seq<char>) -> Seq<Piece> {
    let known = state.tasks@.contains_key(name);
    let info = state.tasks@[name];
    let (mark, color) = icon(
        if known {
            Some(info.state)
        } else {
            None
        },
        palette,
    );
    let took: Seq<Piece> = if known && info.duration.nanos > 0 {
        seq![colored("  "@ + span_text(info.duration.nanos as nat), palette.help)]
    } else {
        Seq::empty()
    };
    let expected: Seq<Piece> = if known && (info.state == TaskState::Running || info.state
        == TaskState::Queued) && state.etas@.contains_key(name) {
        seq![colored("  ~"@ + span_text(state.etas@[name].nanos as nat), palette.eta)]
    } else {
        Seq::empty()
    };
    seq![colored(mark + " "@, color), colored(name, palette.fg)] + took + expected
}

/// The lines of the first `n` tasks of a layer.
pub open spec fn layer_rows(
    state: TuiState,
    palette: Palette,
    layer: Seq<String>,
    n: nat,
) -> Seq<Seq<Piece>> {
    Seq::new(n, |i: int| task_line(state, palette, layer[i]@))
}

/// The line between two layers.
pub open spec fn divider(palette: Palette) -> Seq<Piece> {
    seq![colored("  ↓"@, palette.help)]
}

/// The lines of the first `n` layers, with a line between each two.
pub open spec fn layers_rows(state: TuiState, palette: Palette, n: nat) -> Seq<Seq<Piece>>
    decreases n,
{
    if n == 0 {
        Seq::empty()
    } else {
        let layer = state.layers@[n - 1]@;
        let front = layers_rows(state, palette, (n - 1) as nat) + layer_rows(
            state,
            palette,
            layer,
            layer.len(),
        );
        if n < state.layers@.len() {
            front.push(divider(palette))
        } else {
            front
        }
    }
}

/// The lines of the list.
pub open spec fn dag_rows(state: TuiState, palette: Palette) -> Seq<Seq<Piece>> {
    let all = layers_rows(state, palette, state.layers@.len());
    if all.len() == 0 {
        seq![seq![colored("  (waiting for run start…)"@, palette.help)]]
    } else {
        all
    }
}

/// The title of the list.
pub open spec fn dag_title(target: Option<String>) -> Seq<char> {
    match target {
        Some(t) => " DAG · "@ + t@ + " "@,
        None => " DAG "@,
    }
}

/// How many tasks the first `n` layers hold.
pub open spec fn tasks_in(layers: Seq<Vec<String>>, n: int) -> int
    decreases n,
{
    if n <= 0 {
        0
    } else {
        tasks_in(layers, n - 1) + layers[n - 1]@.len()
    }
}

/// Whether layer `l` holds the task with this number.
pub open spec fn stands_in(layers: Seq<Vec<String>>, flat: int, l: int) -> bool {
    &&& 0 <= l < layers.len()
    &&& tasks_in(layers, l) <= flat < tasks_in(layers, l + 1)
}

/// Whether `row` is the line of the task with this number: one line further down
/// for each layer above it. For a number that no task has it is the last line.
pub open spec fn is_row_of(layers: Seq<Vec<String>>, flat: int, row: int) -> bool {
    let n = layers.len() as int;
    if flat < tasks_in(layers, n) {
        exists|l: int| #[trigger] stands_in(layers, flat, l) && row == flat + l
    } else {
        let all = tasks_in(layers, n) + (if n > 0 {
            n - 1
        } else {
            0
        });
        row == (if all > 0 {
            all - 1
        } else {
            0
        })
    }
}

proof fn lemma_tasks_in_grows(layers: Seq<Vec<String>>, m: int, n: int)
    requires
        0 <= m <= n <= layers.len(),
    ensures
        0 <= tasks_in(layers, m) <= tasks_in(layers, n),
    decreases n,
{
    if m < n {
        lemma_tasks_in_grows(layers, m, n - 1);
    } else if n > 0 {
        lemma_tasks_in_grows(layers, n - 1, n - 1);
    }
}

/// The line of the task with this number.
pub fn visible_index(state: &TuiState, flat_idx: usize) -> (r: usize)
    requires
        tasks_in(state.layers@, state.layers@.len() as int) + state.layers@.len() <= usize::MAX,
    ensures
        is_row_of(state.layers@, flat_idx as int, r as int),
{
    let n: usize = state.layers.len();
    let mut count: usize = 0;
    let mut i: usize = 0;
    while i < n
        invariant
            n == state.layers@.len(),
            i <= n,
            tasks_in(state.layers@, n as int) + n <= usize::MAX,
            count == tasks_in(state.layers@, i as int),
            count <= flat_idx,
        decreases n - i,
    {
        let here: usize = state.layers[i].len();
        proof {
            lemma_tasks_in_grows(state.layers@, i + 1, n as int);
        }
        if flat_idx - count < here {
            proof {
                assert(stands_in(state.layers@, flat_idx as int, i as int));
            }
            return flat_idx + i;
        }
        count += here;
        i += 1;
    }
    let dividers: usize = if n > 0 {
        n - 1
    } else {
        0
    };
    let all: usize = count + dividers;
    if all > 0 {
        all - 1
    } else {
        0
    }
}

/// Whether every duration that the list shows can be shown.
pub open spec fn can_show(state: TuiState) -> bool {
    &&& forall|k: Seq<char>| #[trigger]
        state.tasks@.contains_key(k) ==> is_showable(state.tasks@[k].duration.nanos as nat)
    &&& forall|k: Seq<char>| #[trigger]
        state.etas@.contains_key(k) ==> is_showable(state.etas@[k].nanos as nat)
}

impl<'s> DagWidget<'s> {
    /// The list of the tasks in the colours of the palette.
    pub fn new(state: &'s TuiState, palette: &'s Palette) -> (r: DagWidget<'s>)
        ensures
            *r.state == *state,
            *r.palette == *palette,
    {
        DagWidget { state, palette }
    }

    /// The line of a task.
    fn line(&self, name: &str) -> (r: Vec<Span>)
        requires
            self.state.wf(),
            can_show(*self.state),
        ensures
            pieces(r@) == task_line(*self.state, *self.palette, name@),
    {
        broadcast use lemma_pieces_push;
        let info = self.state.tasks.get(name);
        let status = match info {
            Some(i) => Some(i.state),
            None => None,
        };
        let (mark, color) = task_icon(status, self.palette);
        let mut spans: Vec<Span> = Vec::new();
        assert(pieces(spans@) =~= Seq::<Piece>::empty());
        let mut text = mark.to_owned();
        text.append(" ");
        spans.push(span(text, color));
        spans.push(span(name.to_owned(), self.palette.fg));
        if let Some(i) = info {
            if !i.duration.is_zero() {
                let mut text = "  ".to_owned();
                let took = format_duration(i.duration);
                text.append(took.as_str());
                spans.push(span(text, self.palette.help));
            }
            if i.state == TaskState::Running || i.state == TaskState::Queued {
                if let Some(eta) = self.state.etas.get(name) {
                    let mut text = "  ~".to_owned();
                    let left = format_duration(*eta);
                    text.append(left.as_str());
                    spans.push(span(text, self.palette.eta));
                }
            }
        }
        assert(pieces(spans@) =~= task_line(*self.state, *self.palette, name@));
        spans
    }

    /// The list: its lines, and the line under the cursor.
    pub fn render(&self) -> (r: Pane)
        requires
            self.state.wf(),
            can_show(*self.state),
            tasks_in(self.state.layers@, self.state.layers@.len() as int)
                + self.state.layers@.len() <= usize::MAX,
        ensures
            r.title@ == dag_title(self.state.target),
            r.border == self.palette.accent,
            rows(r.lines@) == dag_rows(*self.state, *self.palette),
            match (r.selected, self.state.selected) {
                (Some(row), Some(flat)) => is_row_of(self.state.layers@, flat as int, row as int),
                (None, None) => true,
                _ => false,
            },
    {
        let title = match &self.state.target {
            Some(t) => {
                let mut title = " DAG · ".to_owned();
                title.append(t.as_str());
                title.append(" ");
                title
            },
            None => " DAG ".to_owned(),
        };
        let n: usize = self.state.layers.len();
        let mut lines: Vec<Vec<Span>> = Vec::new();
        let mut i: usize = 0;
        assert(rows(lines@) =~= layers_rows(*self.state, *self.palette, 0));
        while i < n
            invariant
                self.state.wf(),
                can_show(*self.state),
                n == self.state.layers@.len(),
                i <= n,
                rows(lines@) == layers_rows(*self.state, *self.palette, i as nat),
            decreases n - i,
        {
            broadcast use lemma_rows_push;
            let layer = &self.state.layers[i];
            let ghost front = rows(lines@);
            let mut j: usize = 0;
            assert(front + layer_rows(*self.state, *self.palette, layer@, 0) =~= front);
            while j < layer.len()
                invariant
                    self.state.wf(),
                    can_show(*self.state),
                    j <= layer.len(),
                    rows(lines@) == front + layer_rows(
                        *self.state,
                        *self.palette,
                        layer@,
                        j as nat,
                    ),
                decreases layer.len() - j,
            {
                broadcast use lemma_rows_push;
                lines.push(self.line(layer[j].as_str()));
                assert(rows(lines@) =~= front + layer_rows(
                    *self.state,
                    *self.palette,
                    layer@,
                    (j + 1) as nat,
                ));
                j += 1;
            }
            if i + 1 < n {
                lines.push(line_of(span("  ↓".to_owned(), self.palette.help)));
            }
            i += 1;
        }
        if lines.len() == 0 {
            broadcast use lemma_rows_push;
            assert(rows(lines@).len() == 0);
            lines.push(
                line_of(span("  (waiting for run start…)".to_owned(), self.palette.help)),
            );
            assert(rows(lines@) =~= dag_rows(*self.state, *self.palette));
        }
        let selected = match self.state.selected {
            Some(flat) => Some(visible_index(self.state, flat)),
            None => None,
        };
        Pane { title, border: self.palette.accent, lines, selected }
    }
}

/// How many lines the first `n` layers take up.
proof fn lemma_rows_len(state: TuiState, palette: Palette, n: nat)
    requires
        n <= state.layers@.len(),
    ensures
        layers_rows(state, palette, n).len() == tasks_in(state.layers@, n as int) + (if n
            < state.layers@.len() {
            n as int
        } else if n > 0 {
            n - 1
        } else {
            0
        }),
    decreases n,
{
    if n > 0 {
        lemma_rows_len(state, palette, (n - 1) as nat);
    }
}

/// Lines of earlier layers stay where they are.
proof fn lemma_rows_prefix(state: TuiState, palette: Palette, m: nat, n: nat)
    requires
        m <= n <= state.layers@.len(),
    ensures
        layers_rows(state, palette, m).is_prefix_of(layers_rows(state, palette, n)),
    decreases n,
{
    if m < n {
        lemma_rows_prefix(state, palette, m, (n - 1) as nat);
    }
}

proof fn lemma_flattened(layers: Seq<Vec<String>>, flat: int, l: int)
    requires
        stands_in(layers, flat, l),
    ensures
        flattened(layers).len() == tasks_in(layers, layers.len() as int),
        flattened(layers)[flat] == layers[l]@[flat - tasks_in(layers, l)],
    decreases layers.len(),
{
    lemma_flat_len(layers);
    lemma_tasks_in_front(layers, l);
    lemma_tasks_in_front(layers, l + 1);
    lemma_tasks_in_grows(layers, 0, l);
    if l < layers.len() - 1 {
        assert(stands_in(layers.drop_last(), flat, l));
        lemma_flattened(layers.drop_last(), flat, l);
        lemma_tasks_in_grows(layers, l + 1, layers.len() - 1);
        lemma_tasks_in_front(layers, layers.len() - 1);
    } else {
        lemma_flat_len(layers.drop_last());
        lemma_tasks_in_front(layers, layers.len() - 1);
    }
}

proof fn lemma_flat_len(layers: Seq<Vec<String>>)
    ensures
        flattened(layers).len() == tasks_in(layers, layers.len() as int),
    decreases layers.len(),
{
    if layers.len() > 0 {
        lemma_flat_len(layers.drop_last());
        lemma_tasks_in_front(layers, layers.len() - 1);
    }
}

proof fn lemma_tasks_in_front(layers: Seq<Vec<String>>, n: int)
    requires
        layers.len() > 0,
        0 <= n <= layers.len(),
    ensures
        n < layers.len() ==> tasks_in(layers.drop_last(), n) == tasks_in(layers, n),
    decreases n,
{
    if 0 < n < layers.len() {
        lemma_tasks_in_front(layers, n - 1);
    }
}

/// The line under the cursor is that of the task under the cursor.
pub proof fn law_cursor_line_shows_task(state: TuiState, palette: Palette, flat: int, row: int)
    requires
        0 <= flat < flattened(state.layers@).len(),
        is_row_of(state.layers@, flat, row),
    ensures
        0 <= row < dag_rows(state, palette).len(),
        dag_rows(state, palette)[row] == task_line(state, palette, flattened(state.layers@)[flat]@),
{
    let layers = state.layers@;
    lemma_flat_len(layers);
    let l = choose|l: int| #[trigger] stands_in(layers, flat, l) && row == flat + l;
    lemma_flattened(layers, flat, l);
    lemma_rows_len(state, palette, l as nat);
    lemma_rows_len(state, palette, (l + 1) as nat);
    lemma_rows_prefix(state, palette, (l + 1) as nat, layers.len());
    let front = layers_rows(state, palette, l as nat);
    let k = flat - tasks_in(layers, l);
    let mid = layers_rows(state, palette, (l + 1) as nat);
    assert(front.len() == tasks_in(layers, l) + l);
    assert(mid[front.len() + k] == task_line(state, palette, layers[l]@[k]@));
    let all = layers_rows(state, palette, layers.len());
    assert(all[row] == mid[row]);
}

/// Each state of a task has its mark, in the colour of that state; one that is not known looks
/// like one that waits.
pub proof fn law_states_have_their_marks(state: Option<TaskState>, palette: Palette, mark: &'static str, color: Color)
    requires
        call_ensures(task_icon, (state, &palette), (mark, color)),
    ensures
        state == Some(TaskState::Running) ==> mark@ == "●"@ && color == palette.running,
        state == Some(TaskState::Done) ==> mark@ == "✓"@ && color == palette.done,
        state == Some(TaskState::Cached) ==> mark@ == "⊙"@ && color == palette.cached,
        state == Some(TaskState::Failed) ==> mark@ == "✗"@ && color == palette.failed,
        state == Some(TaskState::DryRun) ==> mark@ == "·"@ && color == palette.queued,
        state == Some(TaskState::Skipped) ==> mark@ == "⊘"@ && color == palette.queued,
        state == Some(TaskState::Queued) || state is None ==> mark@ == "○"@ && color == palette.queued,
        icon(state, palette) == (mark@, color),
{
}

/// The line of a task shows its mark and its name; behind them how long it took, once that is
/// known, and how long it is expected to take, while it waits or runs.
pub proof fn law_line_of_a_task(state: TuiState, palette: Palette, name: Seq<char>)
    requires
        state.tasks@.contains_key(name),
    ensures
        ({
            let info = state.tasks@[name];
            let line = task_line(state, palette, name);
            let timed = info.duration.nanos > 0;
            let open = (info.state == TaskState::Queued || info.state == TaskState::Running)
                && state.etas@.contains_key(name);
            &&& line[0].text == icon(Some(info.state), palette).0 + " "@
            &&& line[0].color == Some(icon(Some(info.state), palette).1)
            &&& line[1].text == name
            &&& line.len() == 2 + (if timed {
                1int
            } else {
                0
            }) + (if open {
                1int
            } else {
                0
            })
            &&& timed ==> line[2].text == "  "@ + span_text(info.duration.nanos as nat) && line[2].color
                == Some(palette.help)
            &&& open ==> line.last().text == "  ~"@ + span_text(state.etas@[name].nanos as nat)
                && line.last().color == Some(palette.eta)
        }),
{
}

/// The list shows every task of every layer, with a line between each two layers, and its
/// title names the target once there is one. Before the run starts it says that it waits.
pub proof fn law_list_shows_the_layers(widget: DagWidget, r: Pane)
    requires
        call_ensures(DagWidget::render, (&widget,), r),
    ensures
        widget.state.target is None ==> r.title@ == " DAG "@,
        (widget.state.target matches Some(t) ==> r.title@ == " DAG · "@ + t@ + " "@),
        ({
            let n = widget.state.layers@.len() as int;
            let all = tasks_in(widget.state.layers@, n) + (if n > 0 {
                n - 1
            } else {
                0
            });
            &&& all > 0 ==> r.lines@.len() == all
            &&& all == 0 ==> r.lines@.len() == 1 && pieces(r.lines@[0]@)[0].text
                == "  (waiting for run start…)"@
        }),
        r.selected is Some <==> widget.state.selected is Some,
{
    assert(rows(r.lines@).len() == r.lines@.len());
    lemma_rows_len(*widget.state, *widget.palette, widget.state.layers@.len());
    let n = widget.state.layers@.len() as int;
    lemma_tasks_in_grows(widget.state.layers@, 0, n);
    if r.lines@.len() > 0 {
        assert(rows(r.lines@)[0] == pieces(r.lines@[0]@));
    }
}

/// The list is of what it is made for, and the line of a task is told by the task's number.
pub proof fn law_list_is_of_what_it_is_made_for(
    state: TuiState,
    palette: Palette,
    r: DagWidget,
    flat: usize,
    row: usize,
)
    requires
        call_ensures(DagWidget::new, (&state, &palette), r),
        call_ensures(visible_index, (&state, flat), row),
        flat < flattened(state.layers@).len(),
    ensures
        *r.state == state && *r.palette == palette,
        dag_rows(state, palette)[row as int] == task_line(
            state,
            palette,
            flattened(state.layers@)[flat as int]@,
        ),
{
    law_cursor_line_shows_task(state, palette, flat as int, row as int);
}

} // verus!
