//! What the screens show, as lines of coloured text.
//!
//! Each widget turns a state into the lines that are drawn for it; drawing them
//! is left to the application.

use vstd::prelude::*;
use crate::theme::Color;

pub mod dag;
pub mod help;
pub mod launcher;
pub mod logs;
pub mod slash;
pub mod stats;
pub mod summary;

verus! {

/// A piece of a line in one style.
#[derive(Debug, Clone, PartialEq, Eq)]
pub struct Span {
    pub text: String,
    /// `None` for the terminal's own colour.
    pub color: Option<Color>,
    pub bold: bool,
    pub italic: bool,
}

/// The content of a [`Span`].
pub ghost struct Piece {
    pub text: Seq<char>,
    pub color: Option<Color>,
    pub bold: bool,
    pub italic: bool,
}

impl View for Span {
    type V = Piece;

    open spec fn view(&self) -> Piece {
        Piece { text: self.text@, color: self.color, bold: self.bold, italic: self.italic }
    }
}

/// A frame with a title, lines in it, and the number of the line under the
/// cursor.
#[derive(Debug, Clone)]
pub struct Pane {
    pub title: String,
    pub border: Color,
    pub lines: Vec<Vec<Span>>,
    pub selected: Option<usize>,
}

impl Pane {
    /// The pane has a border of this colour, and no line of it is selected.
    pub open spec fn is_text(self, border: Color) -> bool {
        self.border == border && self.selected is None
    }
}

/// The content of a line.
pub open spec fn pieces(line: Seq<Span>) -> Seq<Piece> {
    Seq::new(line.len(), |i: int| line[i]@)
}

/// The contents of lines.
pub open spec fn rows(lines: Seq<Vec<Span>>) -> Seq<Seq<Piece>> {
    Seq::new(lines.len(), |i: int| pieces(lines[i]@))
}

/// A piece in one colour.
pub open spec fn colored(text: Seq<char>, color: Color) -> Piece {
    Piece { text, color: Some(color), bold: false, italic: false }
}

/// A piece in one colour, in bold.
pub open spec fn strong(text: Seq<char>, color: Color) -> Piece {
    Piece { text, color: Some(color), bold: true, italic: false }
}

/// A piece in the terminal's own colour.
pub open spec fn plain(text: Seq<char>) -> Piece {
    Piece { text, color: None, bold: false, italic: false }
}

/// A piece in one colour.
pub fn span(text: String, color: Color) -> (r: Span)
    ensures
        r@ == colored(text@, color),
{
    Span { text, color: Some(color), bold: false, italic: false }
}

/// A piece in one colour, in bold.
pub fn bold_span(text: String, color: Color) -> (r: Span)
    ensures
        r@ == strong(text@, color),
{
    Span { text, color: Some(color), bold: true, italic: false }
}

/// A piece in the terminal's own colour.
pub fn plain_span(text: &str) -> (r: Span)
    ensures
        r@ == plain(text@),
{
    Span { text: text.to_owned(), color: None, bold: false, italic: false }
}

/// A line of one piece.
pub fn line_of(piece: Span) -> (r: Vec<Span>)
    ensures
        pieces(r@) == seq![piece@],
{
    let mut r: Vec<Span> = Vec::new();
    r.push(piece);
    assert(pieces(r@) =~= seq![piece@]);
    r
}

/// Appending a piece appends its content.
pub broadcast proof fn lemma_pieces_push(line: Seq<Span>, piece: Span)
    ensures
        #[trigger] pieces(line.push(piece)) == pieces(line).push(piece@),
{
    assert(pieces(line.push(piece)) =~= pieces(line).push(piece@));
}

/// Appending a line appends its content.
pub broadcast proof fn lemma_rows_push(lines: Seq<Vec<Span>>, line: Vec<Span>)
    ensures
        #[trigger] rows(lines.push(line)) == rows(lines).push(pieces(line@)),
{
    assert(rows(lines.push(line)) =~= rows(lines).push(pieces(line@)));
}

/// A piece holds the text that it is made of, in the colour that it is given; it is bold
/// exactly when it is made so, and no piece made here is italic.
pub proof fn law_pieces_hold_their_text(text: String, slice: &str, color: Color, a: Span, b: Span, c: Span)
    requires
        call_ensures(span, (text, color), a),
        call_ensures(bold_span, (text, color), b),
        call_ensures(plain_span, (slice,), c),
    ensures
        a.text@ == text@ && a.color == Some(color) && !a.bold && !a.italic,
        b.text@ == text@ && b.color == Some(color) && b.bold && !b.italic,
        c.text@ == slice@ && c.color is None && !c.bold && !c.italic,
{
    assert(a@.text == a.text@ && b@.text == b.text@ && c@.text == c.text@);
    assert(a@.color == a.color && b@.color == b.color && c@.color == c.color);
    assert(a@.bold == a.bold && b@.bold == b.bold && c@.bold == c.bold);
    assert(a@.italic == a.italic && b@.italic == b.italic && c@.italic == c.italic);
}

} // verus!
