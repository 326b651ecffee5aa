//! The line that names the keys.

use vstd::prelude::*;
use crate::theme::Palette;
use crate::widgets::{colored, line_of, pieces, span, Span};

verus! {

/// The line that names the keys of the dashboard.
pub struct HelpFooter<'s> {
    pub palette: &'s Palette,
}

impl<'s> HelpFooter<'s> {
    /// The line in the colours of the palette.
    pub fn new(palette: &'s Palette) -> (r: HelpFooter<'s>)
        ensures
            *r.palette == *palette,
    {
        HelpFooter { palette }
    }

    /// The line.
    pub fn render(&self) -> (r: Vec<Span>)
        ensures
            pieces(r@) == seq![
                colored(" q quit · ↑/↓ select · c clear logs · r redraw "@, self.palette.help),
            ],
    {
        line_of(
            span(
                " q quit · ↑/↓ select · c clear logs · r redraw ".to_owned(),
                self.palette.help,
            ),
        )
    }
}

/// The line names the keys that leave, move the cursor, clear the log and draw again.
pub proof fn law_help_names_the_keys(footer: HelpFooter, r: Vec<Span>)
    requires
        call_ensures(HelpFooter::render, (&footer,), r),
    ensures
        r@.len() == 1,
        r@[0].text@ == " q quit · ↑/↓ select · c clear logs · r redraw "@,
        r@[0].color == Some(footer.palette.help),
{
    assert(pieces(r@).len() == r@.len());
    assert(pieces(r@)[0] == r@[0]@);
}

} // verus!
