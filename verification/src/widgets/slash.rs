//! The commands that match what is typed.

use vstd::prelude::*;
use crate::number::{dec, dec_string};
use crate::text::{pad_right, padded_right, same};
use crate::theme::Palette;
use crate::widgets::{
    bold_span, colored, lemma_pieces_push, lemma_rows_push, line_of, pieces, rows, span, strong,
    Pane, Piece, Span,
};

verus! {

/// A command and what it does.
#[derive(Debug, Clone, PartialEq, Eq)]
pub struct SlashCommand {
    pub label: String,
    pub description: String,
}

/// The commands that match what is typed.
pub struct SlashPanel<'s> {
    /// The labels of the commands that match.
    pub filtered: &'s Vec<String>,
    /// All commands.
    pub catalog: &'s Vec<SlashCommand>,
    pub selected: Option<usize>,
    pub palette: &'s Palette,
}

/// What the first command of this label does; nothing when there is none.
pub open spec fn description_of(catalog: Seq<SlashCommand>, label: Seq<char>) -> Seq<char>
    decreases catalog.len(),
{
    if catalog.len() == 0 {
        Seq::empty()
    } else if catalog[0].label@ == label {
        catalog[0].description@
    } else {
        description_of(catalog.drop_first(), label)
    }
}

/// The line of a command.
pub open spec fn command_row(
    catalog: Seq<SlashCommand>,
    label: Seq<char>,
    palette: Palette,
) -> Seq<Piece> {
    seq![
        strong(pad_right(label, 22), palette.fg),
        colored(description_of(catalog, label), palette.help),
    ]
}

impl<'s> SlashPanel<'s> {
    /// The list in the colours of the palette.
    pub fn new(
        filtered: &'s Vec<String>,
        catalog: &'s Vec<SlashCommand>,
        selected: Option<usize>,
        palette: &'s Palette,
    ) -> (r: SlashPanel<'s>)
        ensures
            *r.filtered == *filtered,
            *r.catalog == *catalog,
            r.selected == selected,
            *r.palette == *palette,
    {
        SlashPanel { filtered, catalog, selected, palette }
    }

    /// What the command of this label does.
    fn describe(&self, label: &str) -> (r: String)
        ensures
            r@ == description_of(self.catalog@, label@),
    {
        let mut i: usize = 0;
        assert(self.catalog@.skip(0) =~= self.catalog@);
        while i < self.catalog.len()
            invariant
                i <= self.catalog.len(),
                description_of(self.catalog@, label@) == description_of(
                    self.catalog@.skip(i as int),
                    label@,
                ),
            decreases self.catalog.len() - i,
        {
            if same(self.catalog[i].label.as_str(), label) {
                return self.catalog[i].description.clone();
            }
            assert(self.catalog@.skip(i as int).drop_first() =~= self.catalog@.skip(i + 1));
            i += 1;
        }
        String::new()
    }

    /// The list: how many commands match, their lines, and the line under the
    /// cursor.
    pub fn render(&self) -> (r: Pane)
        ensures
            r.title@ == " Commands ("@ + dec(self.filtered@.len()) + "/"@ + dec(self.catalog@.len())
                + ") "@,
            r.border == self.palette.accent,
            self.filtered@.len() == 0 ==> r.selected is None && rows(r.lines@) == seq![
                seq![colored("  (no command matches)"@, self.palette.help)],
            ],
            self.filtered@.len() > 0 ==> {
                &&& r.selected == self.selected
                &&& rows(r.lines@) == Seq::new(
                    self.filtered@.len(),
                    |i: int| command_row(self.catalog@, self.filtered@[i]@, *self.palette),
                )
            },
    {
        broadcast use lemma_pieces_push;
        let mut title = " Commands (".to_owned();
        let n = dec_string(self.filtered.len() as u128);
        title.append(n.as_str());
        title.append("/");
        let n = dec_string(self.catalog.len() as u128);
        title.append(n.as_str());
        title.append(") ");
        let mut lines: Vec<Vec<Span>> = Vec::new();
        if self.filtered.len() == 0 {
            lines.push(line_of(span("  (no command matches)".to_owned(), self.palette.help)));
            assert(rows(lines@) =~= seq![
                seq![colored("  (no command matches)"@, self.palette.help)],
            ]);
            return Pane { title, border: self.palette.accent, lines, selected: None };
        }
        let mut i: usize = 0;
        let ghost all = Seq::new(
            self.filtered@.len(),
            |i: int| command_row(self.catalog@, self.filtered@[i]@, *self.palette),
        );
        assert(rows(lines@) =~= all.take(0));
        while i < self.filtered.len()
            invariant
                i <= self.filtered.len(),
                all == Seq::new(
                    self.filtered@.len(),
                    |i: int| command_row(self.catalog@, self.filtered@[i]@, *self.palette),
                ),
                rows(lines@) == all.take(i as int),
            decreases self.filtered.len() - i,
        {
            broadcast use lemma_pieces_push;
            broadcast use lemma_rows_push;
            let label = self.filtered[i].as_str();
            let mut line: Vec<Span> = Vec::new();
            assert(pieces(line@) =~= Seq::<Piece>::empty());
            line.push(bold_span(padded_right(label, 22), self.palette.fg));
            line.push(span(self.describe(label), self.palette.help));
            assert(pieces(line@) =~= command_row(self.catalog@, label@, *self.palette));
            lines.push(line);
            assert(all.take(i + 1) =~= all.take(i as int).push(all[i as int]));
            i += 1;
        }
        assert(all.take(all.len() as int) =~= all);
        Pane { title, border: self.palette.accent, lines, selected: self.selected }
    }
}

/// What is told of a command is what the first one of that name in the catalog does, and
/// nothing when there is none.
pub proof fn law_first_command_is_described(
    before: Seq<SlashCommand>,
    command: SlashCommand,
    behind: Seq<SlashCommand>,
)
    requires
        forall|i: int| 0 <= i < before.len() ==> (#[trigger] before[i]).label@ != command.label@,
    ensures
        description_of(before + seq![command] + behind, command.label@) == command.description@,
        description_of(before, command.label@).len() == 0,
    decreases before.len(),
{
    let all = before + seq![command] + behind;
    if before.len() > 0 {
        let rest = before.drop_first();
        assert(all.drop_first() =~= rest + seq![command] + behind);
        assert(all[0] == before[0]);
        assert(before[0].label@ != command.label@);
        assert forall|i: int| 0 <= i < rest.len() implies (#[trigger] rest[i]).label@ != command.label@ by {
            assert(before[i + 1].label@ != command.label@);
        }
        law_first_command_is_described(rest, command, behind);
    } else {
        assert(all[0] == command);
    }
}

/// Every command that matches has a line, in their order: its name in bold and what it does.
/// The title counts them against the catalog, and the cursor is where it was put; without a
/// match one line says so and there is no cursor.
pub proof fn law_matching_commands_are_listed(panel: SlashPanel, r: Pane, i: int)
    requires
        call_ensures(SlashPanel::render, (&panel,), r),
    ensures
        r.title@ == " Commands ("@ + dec(panel.filtered@.len()) + "/"@ + dec(panel.catalog@.len()) + ") "@,
        panel.filtered@.len() == 0 ==> r.lines@.len() == 1 && r.selected is None,
        panel.filtered@.len() > 0 ==> r.lines@.len() == panel.filtered@.len() && r.selected
            == panel.selected,
        0 <= i < panel.filtered@.len() ==> {
            let line = pieces(r.lines@[i]@);
            &&& line.len() == 2
            &&& line[0].text == pad_right(panel.filtered@[i]@, 22)
            &&& line[0].bold
            &&& line[1].text == description_of(panel.catalog@, panel.filtered@[i]@)
            &&& !line[1].bold
        },
{
    assert(rows(r.lines@).len() == r.lines@.len());
    if 0 <= i < panel.filtered@.len() {
        assert(rows(r.lines@)[i] == pieces(r.lines@[i]@));
    }
}

/// The list is of what it is made for.
pub proof fn law_panel_is_of_what_it_is_made_for(
    filtered: Vec<String>,
    catalog: Vec<SlashCommand>,
    selected: Option<usize>,
    palette: Palette,
    r: SlashPanel,
)
    requires
        call_ensures(SlashPanel::new, (&filtered, &catalog, selected, &palette), r),
    ensures
        *r.filtered == filtered,
        *r.catalog == catalog,
        r.selected == selected,
        *r.palette == palette,
{
}

} // verus!
