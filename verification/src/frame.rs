//! A whole screen: what is drawn where.

use crate::app::{rows_of, speaker, speaker_of, App, AppView};
use crate::area::{divide, divides, Direction, Rect, Size};
use crate::host::now_ms;
use crate::notes::{least, pieces, NotesView};
use crate::screen::{
    help_keys, keys_view, one_at_least, roster, roster_view, status, status_fits, status_view, wrap,
    wrapped,
};
use crate::style::{
    add_line, add_span, banner, line_views, marked, plain, span_views, strong, tinted, Color, Line,
    LineView, Span, SpanView, Style, ACCENT, BAD, DIM, MINE,
};
use crate::text::{
    begins, decimal, digits, fields, plus, same, slices, split, starts_with, views, width,
};
use vstd::prelude::*;
use vstd::string::StrSliceExecFns;

verus! {

/// The parts of the screen.
#[derive(Clone, Copy, Debug)]
pub struct Panes {
    pub footer: Rect,
    pub title: Rect,
    pub status: Rect,
    pub roster: Rect,
    pub log: Rect,
    pub entry: Rect,
    pub side: Rect,
}

/// The pane with the notes: its frame, how that looks and what stands on it, and its lines inside.
pub struct SidePane {
    pub area: Rect,
    pub border: Style,
    pub title: Line,
    pub inner: Rect,
    pub lines: Vec<Line>,
}

/// What is drawn where, and where the cursor is.
pub struct Scene {
    pub footer: Vec<Line>,
    pub footer_area: Rect,
    pub title: Line,
    pub title_area: Rect,
    pub status: Vec<Line>,
    pub status_area: Rect,
    pub roster: Vec<Line>,
    pub roster_area: Rect,
    pub log: Vec<Line>,
    pub log_area: Rect,
    pub entry: Line,
    pub entry_area: Rect,
    pub notes: Option<SidePane>,
    pub cursor: Option<(u16, u16)>,
}

#[verifier::ext_equal]
pub struct SidePaneView {
    pub area: Rect,
    pub border: Style,
    pub title: LineView,
    pub inner: Rect,
    pub lines: Seq<LineView>,
}

#[verifier::ext_equal]
pub struct SceneView {
    pub footer: Seq<LineView>,
    pub footer_area: Rect,
    pub title: LineView,
    pub title_area: Rect,
    pub status: Seq<LineView>,
    pub status_area: Rect,
    pub roster: Seq<LineView>,
    pub roster_area: Rect,
    pub log: Seq<LineView>,
    pub log_area: Rect,
    pub entry: LineView,
    pub entry_area: Rect,
    pub notes: Option<SidePaneView>,
    pub cursor: Option<(int, int)>,
}

impl View for SidePane {
    type V = SidePaneView;

    open spec fn view(&self) -> SidePaneView {
        SidePaneView {
            area: self.area,
            border: self.border,
            title: self.title@,
            inner: self.inner,
            lines: line_views(self.lines@),
        }
    }
}

impl View for Scene {
    type V = SceneView;

    open spec fn view(&self) -> SceneView {
        SceneView {
            footer: line_views(self.footer@),
            footer_area: self.footer_area,
            title: self.title@,
            title_area: self.title_area,
            status: line_views(self.status@),
            status_area: self.status_area,
            roster: line_views(self.roster@),
            roster_area: self.roster_area,
            log: line_views(self.log@),
            log_area: self.log_area,
            entry: self.entry@,
            entry_area: self.entry_area,
            notes: match self.notes {
                Some(p) => Some(p@),
                None => None,
            },
            cursor: match self.cursor {
                Some(c) => Some((c.0 as int, c.1 as int)),
                None => None,
            },
        }
    }
}

/// What stands below everything: an error, or else a message, or else what the keys do, in lines of
/// `most` characters.
pub open spec fn footer_view(a: AppView, most: int) -> Seq<LineView> {
    let (texts, color) = if a.err.len() > 0 {
        (wrapped(fields(a.err, ' '), " "@, most), BAD)
    } else if a.flash.len() > 0 {
        (wrapped(fields(a.flash, ' '), " "@, most), ACCENT)
    } else {
        (wrapped(keys_view(a), " · "@, most), DIM)
    };
    texts.map_values(|t: Seq<char>| LineView::of(t, tinted(color)))
}

/// The most characters on a line below everything, on a screen of this width.
pub open spec fn footer_width(screen: Rect) -> int {
    if screen.width < 3 {
        1
    } else {
        screen.width - 2
    }
}

/// The piece of a line that is a command to join with.
pub open spec fn command_in(spans: Seq<SpanView>) -> Option<int>
    decreases spans.len(),
{
    if spans.len() == 0 {
        None
    } else {
        match command_in(spans.drop_last()) {
            Some(j) => Some(j),
            None => if begins(spans.last().text, "headband "@) {
                Some(spans.len() - 1)
            } else {
                None
            },
        }
    }
}

/// The row that line `i` of a pane at `y` is in.
pub open spec fn row_of(y: u16, i: int) -> int {
    y + (i as u16)
}

/// The rows with a command to join with, and the command in each.
pub open spec fn shares(lines: Seq<LineView>, y: u16) -> Seq<(u16, Seq<char>)>
    decreases lines.len(),
{
    if lines.len() == 0 {
        Seq::empty()
    } else {
        let rest = shares(lines.drop_last(), y);
        match command_in(lines.last().spans) {
            Some(j) => rest.push(
                (row_of(y, lines.len() - 1) as u16, lines.last().spans[j].text),
            ),
            None => rest,
        }
    }
}

/// The line with the mouse over it, or not: a command underlined and the sign behind it bright.
pub open spec fn lit(line: LineView, over: bool) -> LineView {
    match command_in(line.spans) {
        Some(j) if over => {
            let under = line.spans.update(
                j,
                SpanView {
                    style: Style { underlined: true, ..line.spans[j].style },
                    ..line.spans[j]
                },
            );
            LineView {
                spans: if j + 1 < under.len() {
                    under.update(j + 1, SpanView { style: strong(ACCENT), ..under[j + 1] })
                } else {
                    under
                },
                ..line
            }
        },
        _ => line,
    }
}

/// The lines of a pane at `y` with the mouse in row `hover`.
pub open spec fn lit_lines(lines: Seq<LineView>, y: u16, hover: Option<u16>) -> Seq<LineView> {
    Seq::new(
        lines.len(),
        |i: int| lit(lines[i], hover is Some && hover->0 == row_of(y, i)),
    )
}

/// The rows with a command are rows of a screen.
pub open spec fn shares_fit(lines: Seq<LineView>, y: u16) -> bool {
    forall|i: int|
        0 <= i < lines.len() && command_in((#[trigger] lines[i]).spans) is Some ==> row_of(y, i)
            <= u16::MAX
}

/// A line of the log: a hit on a banner, the player's own lines in their own colour.
pub open spec fn log_line(a: AppView, l: Seq<char>) -> LineView {
    if l.len() > 0 && l.last() == '✓' {
        LineView::of(" "@ + l + " "@, banner())
    } else {
        LineView::of(
            l,
            tinted(
                if speaker_of(a.state.players, l) == Some(a.you) {
                    MINE
                } else {
                    DIM
                },
            ),
        )
    }
}

/// The log in its pane: the newest lines that fit, or those further back that it is scrolled to,
/// below a line that says so.
pub open spec fn log_view(a: AppView) -> Seq<LineView> {
    let rows = a.log_rect.height as int;
    let end = a.shown().len() - a.log_scroll;
    let from = if end < rows {
        0
    } else {
        end - rows
    };
    let lines = a.shown().subrange(from, end).map_values(|l: Seq<char>| log_line(a, l));
    if a.log_scroll > 0 {
        let all = seq![
            LineView::of(
                "▲ "@ + digits(a.log_scroll as nat) + " older, scroll down for the latest"@,
                tinted(BAD),
            ),
        ] + lines;
        all.take(least(all.len() as int, rows))
    } else {
        lines
    }
}

/// What the player is to enter.
pub open spec fn hint(a: AppView) -> Seq<char> {
    if !a.joined {
        "your name"@
    } else if !a.active() {
        "queue your next guess"@
    } else if a.state.phase == "assign"@ {
        "what "@ + (match a.target() {
            Some(p) => p.name,
            None => Seq::empty(),
        }) + " is"@
    } else {
        "your guess"@
    }
}

/// The line of entry.
pub open spec fn entry_view(a: AppView) -> LineView {
    let held = !a.active();
    LineView::from(
        if !a.can_type() {
            Seq::empty()
        } else if a.entry.lines[0].len() == 0 {
            seq![SpanView::of("> "@, tinted(DIM)), SpanView::of(hint(a), tinted(DIM))]
        } else {
            let typed = seq![
                SpanView::of(
                    "> "@,
                    if held {
                        tinted(DIM)
                    } else {
                        plain()
                    },
                ),
                SpanView::bare(a.entry.lines[0]),
            ];
            if held {
                typed.push(SpanView::of("  waiting for your turn"@, tinted(DIM)))
            } else {
                typed
            }
        },
    )
}

/// Nothing is in the notes and nobody is at them.
pub open spec fn notes_idle(a: AppView) -> bool {
    a.notes.lines == seq![Seq::<char>::empty()] && !a.on_notes
}

/// A line of the notes, what is selected marked.
pub open spec fn note_line(v: Seq<(Seq<char>, bool)>) -> LineView {
    LineView::from(
        v.map_values(
            |p: (Seq<char>, bool)|
                SpanView::of(
                    p.0,
                    if p.1 {
                        marked()
                    } else {
                        plain()
                    },
                ),
        ),
    )
}

/// The notes in a pane of `rows` rows.
pub open spec fn notes_view(a: AppView, rows: u16) -> Seq<LineView> {
    if notes_idle(a) {
        seq![LineView::of("click here to take notes"@, tinted(DIM))]
    } else {
        let n = least(a.notes.lines.len() - a.notes.scroll, rows as int);
        Seq::new(n as nat, |i: int| note_line(a.notes.segments(a.notes.scroll + i)))
    }
}

/// The cursor of the notes is in view.
pub open spec fn note_in_view(n: NotesView, inner: Rect) -> bool {
    n.scroll <= n.row < n.scroll + inner.height
}

/// Where the cursor is: in the notes if they have the focus, else in the line of entry.
pub open spec fn cursor_view(a: AppView) -> Option<(int, int)> {
    if a.on_notes {
        if note_in_view(a.notes, a.notes_inner) {
            let last = if a.notes_inner.right_edge() < 1 {
                0
            } else {
                a.notes_inner.right_edge() - 1
            };
            Some(
                (
                    least(a.notes_inner.x + (a.notes.col as u16), last),
                    a.notes_inner.y + (a.notes.row - a.notes.scroll),
                ),
            )
        } else {
            None
        }
    } else if a.can_type() {
        Some((a.entry_rect.x + 2 + (a.entry.col as u16), a.entry_rect.y as int))
    } else {
        None
    }
}

/// The player's side after a screen was drawn in `panes`, with `status` in it.
pub open spec fn noted(a: AppView, panes: Panes, status: Seq<LineView>) -> AppView {
    let b = AppView {
        share: shares(status, panes.status.y),
        log_rect: panes.log,
        entry_rect: panes.entry,
        notes_inner: if a.notes_hidden {
            Rect { x: 0, y: 0, width: 0, height: 0 }
        } else {
            panes.side.within_frame()
        },
        ..a
    };
    AppView { log_scroll: least(a.log_scroll, b.max_log_scroll()), ..b }
}

/// What a screen reads is there, and its cells have coordinates.
pub open spec fn drawable(a: AppView, panes: Panes, status: Seq<LineView>) -> bool {
    let b = noted(a, panes, status);
    &&& shares_fit(status, panes.status.y)
    &&& a.can_type() ==> a.entry.lines.len() > 0
    &&& !a.notes_hidden && !notes_idle(a) ==> a.notes.scroll <= a.notes.lines.len()
    &&& if a.on_notes {
        note_in_view(a.notes, b.notes_inner) ==> {
            &&& b.notes_inner.x + (a.notes.col as u16) <= u16::MAX
            &&& b.notes_inner.y + (a.notes.row - a.notes.scroll) <= u16::MAX
        }
    } else {
        a.can_type() ==> panes.entry.x + 2 + (a.entry.col as u16) <= u16::MAX
    }
}

/// The screen drawn in `panes`.
pub open spec fn composed(
    a: AppView,
    panes: Panes,
    footer: Seq<LineView>,
    status: Seq<LineView>,
    roster: Seq<LineView>,
) -> SceneView {
    let b = noted(a, panes, status);
    SceneView {
        footer,
        footer_area: panes.footer.shrunk(1, 0),
        title: LineView::of("HEADBAND"@, strong(ACCENT)),
        title_area: panes.title,
        status: lit_lines(status, panes.status.y, a.hover),
        status_area: panes.status,
        roster,
        roster_area: panes.roster,
        log: log_view(b),
        log_area: panes.log,
        entry: entry_view(b),
        entry_area: panes.entry,
        notes: if a.notes_hidden {
            None
        } else {
            Some(
                SidePaneView {
                    area: panes.side,
                    border: tinted(
                        if a.on_notes {
                            ACCENT
                        } else {
                            DIM
                        },
                    ),
                    title: LineView::from(seq![SpanView::of(" NOTES "@, strong(ACCENT))]),
                    inner: b.notes_inner,
                    lines: notes_view(b, b.notes_inner.height),
                },
            )
        },
        cursor: cursor_view(b),
    }
}

/// What stands below everything, on a screen of this size.
pub fn footer(app: &App, screen: Rect) -> (lines: Vec<Line>)
    ensures
        line_views(lines@) == footer_view(app@, footer_width(screen)),
{
    let w = screen.width.saturating_sub(2);
    let ghost most = footer_width(screen);
    assert(one_at_least(w) == most);
    let failed = !app.err.as_str().is_empty();
    let told = !app.flash.as_str().is_empty();
    let color = if failed { BAD } else if told { ACCENT } else { DIM };
    let texts = if failed {
        wrap(&slices(&split(&app.err, ' ')), " ", w)
    } else if told {
        wrap(&slices(&split(&app.flash, ' ')), " ", w)
    } else {
        wrap(&help_keys(app), " · ", w)
    };
    let ghost want = footer_view(app@, most);
    let mut lines: Vec<Line> = Vec::new();
    let mut i: usize = 0;
    assert(want.take(0) =~= Seq::empty());
    assert(line_views(lines@) =~= Seq::empty());
    while i < texts.len()
        invariant
            i <= texts.len(),
            want.len() == texts.len(),
            forall|j: int|
                0 <= j < texts.len() ==> #[trigger] want[j] == LineView::of(
                    texts[j]@,
                    tinted(color),
                ),
            line_views(lines@) == want.take(i as int),
        decreases texts.len() - i,
    {
        add_line(&mut lines, Line::styled(texts[i].clone(), Style::new().fg(color)));
        assert(want.take(i + 1) =~= want.take(i as int).push(want[i as int]));
        i += 1;
    }
    assert(want.take(i as int) =~= want);
    lines
}

fn command_at(line: &Line) -> (at: Option<usize>)
    ensures
        (match at {
            Some(j) => Some(j as int),
            None => None,
        }) == command_in(line@.spans),
        at matches Some(j) ==> j < line.spans.len(),
{
    let ghost all = line@.spans;
    let mut j: usize = 0;
    assert(all.take(0) =~= Seq::empty());
    while j < line.spans.len()
        invariant
            j <= line.spans.len(),
            all == line@.spans,
            command_in(all.take(j as int)) is None,
        decreases line.spans.len() - j,
    {
        proof {
            assert(all.take(j + 1).drop_last() =~= all.take(j as int));
            assert(all.take(j + 1).last() == line.spans[j as int]@);
        }
        if starts_with(&line.spans[j].text, "headband ") {
            proof {
                lemma_command_in_more(all.take(j + 1), all);
            }
            return Some(j);
        }
        j += 1;
    }
    assert(all.take(j as int) =~= all);
    None
}

/// Pieces further right do not change which command is the first.
proof fn lemma_command_in_more(some: Seq<SpanView>, all: Seq<SpanView>)
    requires
        some.len() <= all.len(),
        some == all.take(some.len() as int),
        command_in(some) is Some,
    ensures
        command_in(all) == command_in(some),
    decreases all.len(),
{
    if some.len() < all.len() {
        assert(all.drop_last().take(some.len() as int) =~= some);
        lemma_command_in_more(some, all.drop_last());
    } else {
        assert(all.take(some.len() as int) =~= all);
    }
}

fn light(line: Line, over: bool) -> (out: Line)
    ensures
        out@ == lit(line@, over),
{
    let mut line = line;
    if !over {
        return line;
    }
    let ghost was = line@;
    if let Some(j) = command_at(&line) {
        line.spans[j].style = line.spans[j].style.underlined();
        let ghost under = line@.spans;
        assert(under =~= was.spans.update(
            j as int,
            SpanView {
                style: Style { underlined: true, ..was.spans[j as int].style },
                ..was.spans[j as int]
            },
        ));
        if j + 1 < line.spans.len() {
            line.spans[j + 1].style = Style::new().fg(ACCENT).bold();
            assert(line@.spans =~= under.update(
                j + 1,
                SpanView { style: strong(ACCENT), ..under[j + 1] },
            ));
        }
    }
    line
}

/// Where the rows of a pane would lie off any screen, `None`; else the rows with a command to join
/// with.
fn find_shares(lines: &Vec<Line>, y: u16) -> (rows: Option<Vec<(u16, String)>>)
    ensures
        rows is Some == shares_fit(line_views(lines@), y),
        rows matches Some(v) ==> rows_of(v@) == shares(line_views(lines@), y),
{
    let ghost all = line_views(lines@);
    let mut rows: Vec<(u16, String)> = Vec::new();
    let mut i: usize = 0;
    assert(all.take(0) =~= Seq::empty());
    assert(rows_of(rows@) =~= Seq::empty());
    while i < lines.len()
        invariant
            i <= lines.len(),
            all == line_views(lines@),
            shares_fit(all.take(i as int), y),
            rows_of(rows@) == shares(all.take(i as int), y),
        decreases lines.len() - i,
    {
        let ghost next = all.take(i + 1);
        let ghost was = rows@;
        proof {
            assert(next.drop_last() =~= all.take(i as int));
            assert(next.last() == lines[i as int]@);
        }
        if let Some(j) = command_at(&lines[i]) {
            let k = i as u16;
            if k > u16::MAX - y {
                assert(command_in(all[i as int].spans) is Some);
                return None;
            }
            rows.push((y + k, lines[i].spans[j].text.clone()));
            assert(rows_of(rows@) =~= rows_of(was).push(
                (row_of(y, i as int) as u16, lines[i as int].spans[j as int].text@),
            ));
        }
        assert(shares_fit(next, y)) by {
            assert forall|q: int|
                0 <= q < next.len() && command_in(
                    (#[trigger] next[q]).spans,
                ) is Some implies row_of(y, q) <= u16::MAX by {
                if q < i {
                    assert(all.take(i as int)[q] == next[q]);
                }
            }
        }
        i += 1;
    }
    assert(all.take(i as int) =~= all);
    Some(rows)
}

fn light_lines(lines: Vec<Line>, y: u16, hover: Option<u16>) -> (out: Vec<Line>)
    requires
        shares_fit(line_views(lines@), y),
    ensures
        line_views(out@) == lit_lines(line_views(lines@), y, hover),
{
    let ghost all = line_views(lines@);
    let ghost want = lit_lines(all, y, hover);
    let mut lines = lines;
    let n = lines.len();
    let mut i: usize = 0;
    while i < n
        invariant
            i <= n,
            n == lines.len(),
            n == all.len(),
            shares_fit(all, y),
            want == lit_lines(all, y, hover),
            forall|j: int| 0 <= j < i ==> #[trigger] line_views(lines@)[j] == want[j],
            forall|j: int| i <= j < n ==> #[trigger] line_views(lines@)[j] == all[j],
        decreases n - i,
    {
        let ghost was = line_views(lines@);
        let k = i as u16;
        let over = match hover {
            Some(h) => h as u32 == y as u32 + k as u32,
            None => false,
        };
        let mut line = Line { spans: Vec::new(), style: Style::new() };
        core::mem::swap(&mut line, &mut lines[i]);
        assert(line@ == was[i as int]);
        lines[i] = light(line, over);
        proof {
            assert(line_views(lines@) =~= was.update(i as int, want[i as int]));
        }
        i += 1;
    }
    assert(line_views(lines@) =~= want);
    lines
}

fn log_line_of(app: &App, l: &String) -> (line: Line)
    ensures
        line@ == log_line(app@, l@),
{
    let n = width(l);
    if n > 0 && l.as_str().get_char(n - 1) == '✓' {
        let style = Style::new().fg(Color::Black).bg(Color::Green).bold();
        Line::styled(plus(&plus(" ", l), " "), style)
    } else {
        let mine = match speaker(&app.state, l) {
            Some(who) => who == app.you,
            None => false,
        };
        Line::styled(l.clone(), Style::new().fg(if mine { MINE } else { DIM }))
    }
}

/// The log in its pane.
pub fn log_in(app: &App) -> (lines: Vec<Line>)
    requires
        app.log_scroll <= app@.max_log_scroll(),
    ensures
        line_views(lines@) == log_view(app@),
{
    let rows = app.log_rect.height as usize;
    let shown = app.log_lines();
    assert(views(shown@).len() == shown.len());
    let end = shown.len() - app.log_scroll;
    let from = end.saturating_sub(rows);
    let ghost f = |l: Seq<char>| log_line(app@, l);
    let ghost part = app@.shown().subrange(from as int, end as int);
    let ghost want = part.map_values(f);
    let mut lines: Vec<Line> = Vec::new();
    let mut i: usize = from;
    assert(line_views(lines@) =~= want.take(0));
    while i < end
        invariant
            from <= i <= end <= shown.len(),
            views(shown@) == app@.shown(),
            part == app@.shown().subrange(from as int, end as int),
            f == (|l: Seq<char>| log_line(app@, l)),
            want == part.map_values(f),
            line_views(lines@) == want.take(i - from),
        decreases end - i,
    {
        add_line(&mut lines, log_line_of(app, &shown[i]));
        proof {
            assert(part[i - from] == shown[i as int]@);
            assert(want.take(i + 1 - from) =~= want.take(i - from).push(want[i - from]));
        }
        i += 1;
    }
    assert(want.take(i - from) =~= want);
    if app.log_scroll > 0 {
        let count = decimal(app.log_scroll as u128);
        let text = plus(&plus("▲ ", &count), " older, scroll down for the latest");
        let mut all: Vec<Line> = Vec::new();
        assert(line_views(all@) =~= Seq::empty());
        add_line(&mut all, Line::styled(text, Style::new().fg(BAD)));
        let ghost top = line_views(all@);
        all.append(&mut lines);
        assert(line_views(all@) =~= top + want);
        let ghost whole = line_views(all@);
        all.truncate(rows);
        assert(line_views(all@) =~= whole.take(least(whole.len() as int, rows as int)));
        assert(line_views(all@) =~= log_view(app@));
        all
    } else {
        lines
    }
}

/// The line of entry.
pub fn entry_line(app: &App) -> (line: Line)
    requires
        app@.can_type() ==> app.entry.lines.len() > 0,
    ensures
        line@ == entry_view(app@),
{
    let held = !app.active();
    let dim = Style::new().fg(DIM);
    let mut spans: Vec<Span> = Vec::new();
    assert(span_views(spans@) =~= Seq::empty());
    if app.can_type() {
        if app.entry.lines[0].as_str().is_empty() {
            add_span(&mut spans, Span::styled("> ".to_owned(), dim));
            let text = if !app.joined {
                "your name".to_owned()
            } else if held {
                "queue your next guess".to_owned()
            } else if same(&app.state.phase, "assign") {
                plus(&plus("what ", &app.target_name()), " is")
            } else {
                "your guess".to_owned()
            };
            add_span(&mut spans, Span::styled(text, dim));
        } else {
            let style = if held { dim } else { Style::new() };
            add_span(&mut spans, Span::styled("> ".to_owned(), style));
            add_span(&mut spans, Span::raw(&app.entry.lines[0]));
            if held {
                add_span(&mut spans, Span::styled("  waiting for your turn".to_owned(), dim));
            }
        }
    }
    assert(span_views(spans@) =~= entry_view(app@).spans);
    Line::from(spans)
}

fn note_line_of(parts: Vec<(String, bool)>) -> (line: Line)
    ensures
        line@ == note_line(pieces(parts@)),
{
    let ghost want = note_line(pieces(parts@)).spans;
    let mut spans: Vec<Span> = Vec::new();
    let mut i: usize = 0;
    assert(span_views(spans@) =~= want.take(0));
    while i < parts.len()
        invariant
            i <= parts.len(),
            want == note_line(pieces(parts@)).spans,
            span_views(spans@) == want.take(i as int),
        decreases parts.len() - i,
    {
        let style = if parts[i].1 {
            Style::new().fg(Color::Black).bg(ACCENT)
        } else {
            Style::new()
        };
        add_span(&mut spans, Span::styled(parts[i].0.clone(), style));
        proof {
            assert(pieces(parts@)[i as int] == (parts[i as int].0@, parts[i as int].1));
            assert(want.take(i + 1) =~= want.take(i as int).push(want[i as int]));
        }
        i += 1;
    }
    assert(want.take(i as int) =~= want);
    Line::from(spans)
}

/// The notes in a pane of `rows` rows.
pub fn notes_in(app: &App, rows: u16) -> (lines: Vec<Line>)
    requires
        !notes_idle(app@) ==> app.notes.scroll <= app.notes.lines.len(),
    ensures
        line_views(lines@) == notes_view(app@, rows),
{
    let mut lines: Vec<Line> = Vec::new();
    let ghost want = notes_view(app@, rows);
    if app.notes.is_empty() && !app.on_notes {
        add_line(
            &mut lines,
            Line::styled("click here to take notes".to_owned(), Style::new().fg(DIM)),
        );
        assert(line_views(lines@) =~= want);
        return lines;
    }
    let top = app.notes.scroll;
    let left = app.notes.lines.len() - top;
    let n: usize = if left < rows as usize { left } else { rows as usize };
    let mut i: usize = 0;
    assert(line_views(lines@) =~= want.take(0));
    while i < n
        invariant
            i <= n,
            n <= app.notes.lines.len() - top,
            top == app.notes.scroll,
            want == notes_view(app@, rows),
            want.len() == n,
            !notes_idle(app@),
            line_views(lines@) == want.take(i as int),
        decreases n - i,
    {
        add_line(&mut lines, note_line_of(app.notes.segments(top + i)));
        assert(want.take(i + 1) =~= want.take(i as int).push(want[i as int]));
        i += 1;
    }
    assert(want.take(i as int) =~= want);
    lines
}

fn cursor(app: &App) -> (at: Option<(u16, u16)>)
    requires
        if app.on_notes {
            note_in_view(app@.notes, app.notes_inner) ==> {
                &&& app.notes_inner.x + (app.notes.col as u16) <= u16::MAX
                &&& app.notes_inner.y + (app.notes.row - app.notes.scroll) <= u16::MAX
            }
        } else {
            app@.can_type() ==> app.entry_rect.x + 2 + (app.entry.col as u16) <= u16::MAX
        },
    ensures
        (match at {
            Some(c) => Some((c.0 as int, c.1 as int)),
            None => None,
        }) == cursor_view(app@),
{
    if app.on_notes {
        let inner = app.notes_inner;
        match app.notes.cursor_at(inner) {
            Some((x, y)) => {
                let last = inner.right().saturating_sub(1);
                Some((if x < last { x } else { last }, y))
            },
            None => None,
        }
    } else if app.can_type() {
        Some((app.entry_rect.x + 2 + app.entry.col as u16, app.entry_rect.y))
    } else {
        None
    }
}

/// Whether a screen can be drawn in `panes`, with `status` in it.
pub fn can_draw(app: &App, panes: Panes, status: &Vec<Line>) -> (yes: bool)
    ensures
        yes == drawable(app@, panes, line_views(status@)),
{
    let ghost b = noted(app@, panes, line_views(status@));
    if find_shares(status, panes.status.y).is_none() {
        return false;
    }
    let typing = app.can_type();
    if typing && app.entry.lines.len() == 0 {
        assert(app@.entry.lines.len() == 0);
        return false;
    }
    let idle = app.notes.is_empty() && !app.on_notes;
    if !app.notes_hidden && !idle && app.notes.scroll > app.notes.lines.len() {
        assert(app@.notes.scroll > app@.notes.lines.len());
        return false;
    }
    if app.on_notes {
        let inner = if app.notes_hidden { Rect::zero() } else { panes.side.framed() };
        assert(inner == b.notes_inner);
        if app.notes.scroll <= app.notes.row && app.notes.row - app.notes.scroll
            < inner.height as usize {
            let dx = app.notes.col as u16;
            let dy = (app.notes.row - app.notes.scroll) as u16;
            return dx <= u16::MAX - inner.x && dy <= u16::MAX - inner.y;
        }
        true
    } else {
        let dx = app.entry.col as u16;
        !typing || dx as u32 + panes.entry.x as u32 + 2 <= u16::MAX as u32
    }
}

/// Draws a screen in `panes`.
pub fn compose(
    app: &mut App,
    panes: Panes,
    footer: Vec<Line>,
    status: Vec<Line>,
    roster: Vec<Line>,
) -> (scene: Scene)
    requires
        drawable(old(app)@, panes, line_views(status@)),
    ensures
        final(app)@ == noted(old(app)@, panes, line_views(status@)),
        scene@ == composed(
            old(app)@,
            panes,
            line_views(footer@),
            line_views(status@),
            line_views(roster@),
        ),
{
    let ghost was = app@;
    let ghost b = noted(was, panes, line_views(status@));
    if let Some(rows) = find_shares(&status, panes.status.y) {
        app.share = rows;
    }
    app.log_rect = panes.log;
    app.entry_rect = panes.entry;
    app.notes_inner = if app.notes_hidden { Rect::zero() } else { panes.side.framed() };
    let max = app.max_log_scroll();
    if max < app.log_scroll {
        app.log_scroll = max;
    }
    assert(app@ == b) by {
        assert(b.shows() =~= AppView { log_scroll: was.log_scroll, ..b }.shows());
    }
    let log = log_in(app);
    let entry = entry_line(app);
    let notes = if app.notes_hidden {
        None
    } else {
        let mut title: Vec<Span> = Vec::new();
        let accent = Style::new().fg(ACCENT).bold();
        add_span(&mut title, Span::styled(" NOTES ".to_owned(), accent));
        assert(span_views(title@) =~= seq![SpanView::of(" NOTES "@, strong(ACCENT))]);
        Some(
            SidePane {
                area: panes.side,
                border: Style::new().fg(if app.on_notes { ACCENT } else { DIM }),
                title: Line::from(title),
                inner: app.notes_inner,
                lines: notes_in(app, app.notes_inner.height),
            },
        )
    };
    let at = cursor(app);
    Scene {
        footer,
        footer_area: panes.footer.inner(1, 0),
        title: Line::styled("HEADBAND".to_owned(), Style::new().fg(ACCENT).bold()),
        title_area: panes.title,
        status: light_lines(status, panes.status.y, app.hover),
        status_area: panes.status,
        roster,
        roster_area: panes.roster,
        log,
        log_area: panes.log,
        entry,
        entry_area: panes.entry,
        notes,
        cursor: at,
    }
}

/// `panes` can be how `screen` is divided for so many lines below everything, of status and of
/// players: the footer below the rest, the notes right of it unless they are hidden, and the other
/// parts one below the other in what is left.
pub open spec fn laid_out(
    panes: Panes,
    screen: Rect,
    hidden: bool,
    footer: nat,
    status: nat,
    roster: nat,
) -> bool {
    exists|outer: Seq<Rect>, cols: Seq<Rect>, rows: Seq<Rect>|
        {
            &&& #[trigger] divides(screen, Direction::Down, outer_sizes(footer), outer)
            &&& #[trigger] divides(outer[0], Direction::Across, column_sizes(hidden), cols)
            &&& #[trigger] divides(
                cols[0].shrunk(1, 1),
                Direction::Down,
                row_sizes(status, roster),
                rows,
            )
            &&& panes.footer == outer[1]
            &&& panes.title == rows[0]
            &&& panes.status == rows[1]
            &&& panes.roster == rows[2]
            &&& panes.log == rows[3]
            &&& panes.entry == rows[4]
            &&& !hidden ==> panes.side == cols[1]
        }
}

/// The screen: what there is room for, and so many lines below it.
pub open spec fn outer_sizes(footer: nat) -> Seq<Size> {
    seq![Size::Min(0), Size::Length(footer as u16)]
}

/// The columns: everything, or three fifths and the notes.
pub open spec fn column_sizes(hidden: bool) -> Seq<Size> {
    if hidden {
        seq![Size::Percentage(100)]
    } else {
        seq![Size::Percentage(60), Size::Percentage(40)]
    }
}

/// The rows: the title, the status and the players, each with a gap below, the log, and the line of
/// entry.
pub open spec fn row_sizes(status: nat, roster: nat) -> Seq<Size> {
    seq![
        Size::Length(2),
        Size::Length(((status as u16) + 1) as u16),
        Size::Length(((roster as u16) + 1) as u16),
        Size::Min(0),
        Size::Length(1),
    ]
}

/// Divides a screen for so many lines below everything, of status and of players.
pub fn lay_out(screen: Rect, hidden: bool, footer: usize, status: usize, roster: usize) -> (panes:
    Panes)
    requires
        (status as u16) < u16::MAX,
        (roster as u16) < u16::MAX,
    ensures
        laid_out(panes, screen, hidden, footer as nat, status as nat, roster as nat),
{
    let mut sizes: Vec<Size> = Vec::new();
    sizes.push(Size::Min(0));
    sizes.push(Size::Length(footer as u16));
    assert(sizes@ =~= outer_sizes(footer as nat));
    let outer = divide(screen, Direction::Down, &sizes);
    let mut sizes: Vec<Size> = Vec::new();
    if hidden {
        sizes.push(Size::Percentage(100));
    } else {
        sizes.push(Size::Percentage(60));
        sizes.push(Size::Percentage(40));
    }
    assert(sizes@ =~= column_sizes(hidden));
    let cols = divide(outer[0], Direction::Across, &sizes);
    let mut sizes: Vec<Size> = Vec::new();
    sizes.push(Size::Length(2));
    sizes.push(Size::Length(status as u16 + 1));
    sizes.push(Size::Length(roster as u16 + 1));
    sizes.push(Size::Min(0));
    sizes.push(Size::Length(1));
    assert(sizes@ =~= row_sizes(status as nat, roster as nat));
    let rows = divide(cols[0].inner(1, 1), Direction::Down, &sizes);
    let side = if hidden { Rect::zero() } else { cols[1] };
    Panes {
        footer: outer[1],
        title: rows[0],
        status: rows[1],
        roster: rows[2],
        log: rows[3],
        entry: rows[4],
        side,
    }
}

/// The game can be drawn: the players that it speaks of are there, and not too many to count.
pub open spec fn presentable(a: AppView) -> bool {
    status_fits(a) && (a.state.players.len() as u16) < u16::MAX
}

/// Whether the game can be drawn.
pub fn is_presentable(app: &App) -> (yes: bool)
    ensures
        yes == presentable(app@),
{
    let n = app.state.players.len();
    let over = app.joined && !same(&app.state.phase, "lobby") && !same(&app.state.phase, "assign");
    let fits = !over || (app.you < n && (!same(&app.state.phase, "play") || app.state.turn < n));
    fits && (n as u16) < u16::MAX
}

/// What drawing the screen at `now` comes to, divided into `panes`: the screen and what is noted
/// about it, or nothing where it cannot be drawn.
pub open spec fn drawn(
    a: AppView,
    screen: Rect,
    lan: Seq<char>,
    now: i64,
    panes: Panes,
    after: AppView,
    scene: Option<SceneView>,
) -> bool {
    let foot = footer_view(a, footer_width(screen));
    let news = status_view(a, lan, now);
    let seats = roster_view(a);
    &&& laid_out(panes, screen, a.notes_hidden, foot.len(), news.len(), seats.len())
    &&& if drawable(a, panes, news) {
        after == noted(a, panes, news) && scene == Some(composed(a, panes, foot, news, seats))
    } else {
        after == a && scene is None
    }
}

/// The view of a screen that may be missing.
pub open spec fn scene_of(s: Option<Scene>) -> Option<SceneView> {
    match s {
        Some(s) => Some(s@),
        None => None,
    }
}

/// Draws the screen; `lan` is where the host can be reached from nearby. `None`, and nothing
/// changed, where the division of the screen leaves no cell for what is to be drawn.
pub fn ui(app: &mut App, screen: Rect, lan: &str) -> (scene: Option<Scene>)
    requires
        presentable(old(app)@),
    ensures
        exists|now: i64, panes: Panes| #[trigger]
            drawn(old(app)@, screen, lan@, now, panes, final(app)@, scene_of(scene)),
{
    let ghost a = app@;
    let now = now_ms();
    let foot = footer(app, screen);
    let news = status(app, lan, now);
    let seats = roster(app);
    proof {
        assert(line_views(foot@).len() == foot.len());
        assert(line_views(news@).len() == news.len());
        assert(line_views(news@).len() <= 4);
        assert(line_views(seats@).len() == seats.len());
        assert(roster_view(a).len() == a.state.players.len());
    }
    let panes = lay_out(screen, app.notes_hidden, foot.len(), news.len(), seats.len());
    if !can_draw(app, panes, &news) {
        assert(drawn(a, screen, lan@, now, panes, app@, None));
        return None;
    }
    let s = compose(app, panes, foot, news, seats);
    assert(drawn(a, screen, lan@, now, panes, app@, Some(s@)));
    Some(s)
}

} // verus!
