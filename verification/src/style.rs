//! Styled text.

use crate::text::{lines, text_lines, views};
use vstd::prelude::*;

verus! {

/// A colour of the terminal.
#[derive(Clone, Copy, Debug, PartialEq, Eq, Structural)]
pub enum Color {
    Black,
    Cyan,
    DarkGray,
    Green,
    Magenta,
    Red,
}

/// What asks for attention.
pub const ACCENT: Color = Color::Cyan;

/// What does not.
pub const DIM: Color = Color::DarkGray;

/// What went wrong, or is about to.
pub const BAD: Color = Color::Red;

/// What is the player's own.
pub const MINE: Color = Color::Magenta;

/// How text looks.
#[derive(Clone, Copy, Debug, PartialEq, Eq, Structural)]
pub struct Style {
    pub fg: Option<Color>,
    pub bg: Option<Color>,
    pub bold: bool,
    pub underlined: bool,
}

/// A piece of text in one style.
pub struct Span {
    pub text: String,
    pub style: Style,
}

/// A line of pieces, each in its own style over the style of the line.
pub struct Line {
    pub spans: Vec<Span>,
    pub style: Style,
}

#[verifier::ext_equal]
pub struct SpanView {
    pub text: Seq<char>,
    pub style: Style,
}

#[verifier::ext_equal]
pub struct LineView {
    pub spans: Seq<SpanView>,
    pub style: Style,
}

impl View for Span {
    type V = SpanView;

    open spec fn view(&self) -> SpanView {
        SpanView { text: self.text@, style: self.style }
    }
}

/// The views of a list of pieces.
pub open spec fn span_views(v: Seq<Span>) -> Seq<SpanView> {
    Seq::new(v.len(), |i: int| v[i]@)
}

impl View for Line {
    type V = LineView;

    open spec fn view(&self) -> LineView {
        LineView { spans: span_views(self.spans@), style: self.style }
    }
}

/// The views of a list of lines.
pub open spec fn line_views(v: Seq<Line>) -> Seq<LineView> {
    Seq::new(v.len(), |i: int| v[i]@)
}

/// The look of the terminal itself.
pub open spec fn plain() -> Style {
    Style { fg: None, bg: None, bold: false, underlined: false }
}

/// In colour `c`.
pub open spec fn tinted(c: Color) -> Style {
    Style { fg: Some(c), ..plain() }
}

/// In colour `c` and bold.
pub open spec fn strong(c: Color) -> Style {
    Style { fg: Some(c), bold: true, ..plain() }
}

/// Black on green and bold, as a hit is shown.
pub open spec fn banner() -> Style {
    Style { fg: Some(Color::Black), bg: Some(Color::Green), bold: true, underlined: false }
}

/// Black on the accent, as selected text is shown.
pub open spec fn marked() -> Style {
    Style { fg: Some(Color::Black), bg: Some(ACCENT), bold: false, underlined: false }
}

impl SpanView {
    /// `text` in `style`.
    pub open spec fn of(text: Seq<char>, style: Style) -> SpanView {
        SpanView { text, style }
    }

    /// `text` as the terminal shows it.
    pub open spec fn bare(text: Seq<char>) -> SpanView {
        SpanView { text, style: plain() }
    }
}

impl LineView {
    /// `text`, the whole line in `style`: a piece for each line of the text, without its line
    /// breaks.
    pub open spec fn of(text: Seq<char>, style: Style) -> LineView {
        LineView { spans: text_lines(text).map_values(|t: Seq<char>| SpanView::bare(t)), style }
    }

    /// These pieces, the line itself in no style.
    pub open spec fn from(spans: Seq<SpanView>) -> LineView {
        LineView { spans, style: plain() }
    }
}

impl Style {
    /// The look of the terminal itself.
    pub fn new() -> (s: Style)
        ensures
            s == plain(),
    {
        Style { fg: None, bg: None, bold: false, underlined: false }
    }

    /// In this colour.
    pub fn fg(self, c: Color) -> (s: Style)
        ensures
            s == (Style { fg: Some(c), ..self }),
    {
        Style { fg: Some(c), ..self }
    }

    /// On this colour.
    pub fn bg(self, c: Color) -> (s: Style)
        ensures
            s == (Style { bg: Some(c), ..self }),
    {
        Style { bg: Some(c), ..self }
    }

    /// In bold.
    pub fn bold(self) -> (s: Style)
        ensures
            s == (Style { bold: true, ..self }),
    {
        Style { bold: true, ..self }
    }

    /// Underlined.
    pub fn underlined(self) -> (s: Style)
        ensures
            s == (Style { underlined: true, ..self }),
    {
        Style { underlined: true, ..self }
    }
}

impl Span {
    /// `text` in `style`.
    pub fn styled(text: String, style: Style) -> (s: Span)
        ensures
            s@ == SpanView::of(text@, style),
    {
        Span { text, style }
    }

    /// `text` as the terminal shows it.
    pub fn raw(text: &str) -> (s: Span)
        ensures
            s@ == SpanView::bare(text@),
    {
        Span { text: text.to_owned(), style: Style::new() }
    }
}

impl Line {
    /// `text`, the whole line in `style`: a piece for each line of the text, without its line
    /// breaks.
    pub fn styled(text: String, style: Style) -> (l: Line)
        ensures
            l@ == LineView::of(text@, style),
    {
        let parts = lines(&text);
        let ghost want = LineView::of(text@, style).spans;
        let mut spans: Vec<Span> = Vec::new();
        let mut i: usize = 0;
        assert(views(parts@).len() == parts.len());
        assert(span_views(spans@) =~= want.take(0));
        while i < parts.len()
            invariant
                i <= parts.len(),
                want.len() == parts.len(),
                forall|j: int|
                    0 <= j < parts.len() ==> #[trigger] want[j] == SpanView::bare(parts[j]@),
                span_views(spans@) == want.take(i as int),
            decreases parts.len() - i,
        {
            add_span(&mut spans, Span::raw(&parts[i]));
            assert(want.take(i + 1) =~= want.take(i as int).push(want[i as int]));
            i += 1;
        }
        assert(want.take(i as int) =~= want);
        Line { spans, style }
    }

    /// These pieces, the line itself in no style.
    pub fn from(spans: Vec<Span>) -> (l: Line)
        ensures
            l@ == LineView::from(span_views(spans@)),
    {
        Line { spans, style: Style::new() }
    }
}

/// One piece behind others.
pub fn add_span(spans: &mut Vec<Span>, s: Span)
    ensures
        span_views(final(spans)@) == span_views(old(spans)@).push(s@),
{
    spans.push(s);
    assert(span_views(spans@) =~= span_views(old(spans)@).push(s@));
}

/// One line below others.
pub fn add_line(lines: &mut Vec<Line>, l: Line)
    ensures
        line_views(final(lines)@) == line_views(old(lines)@).push(l@),
{
    lines.push(l);
    assert(line_views(lines@) =~= line_views(old(lines)@).push(l@));
}

} // verus!
