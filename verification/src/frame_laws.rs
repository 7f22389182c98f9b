//! What holds of every division of the screen.

use crate::area::{hundred, hundredths, lengths, lengths_but, Direction, Rect, Size};
use crate::app::{speaker_of, AppView};
use crate::frame::{
    column_sizes, command_in, composed, cursor_view, drawn, entry_view, footer_view, footer_width,
    laid_out, lit_lines, log_line, log_view, noted, notes_view, outer_sizes, row_sizes, shares,
    Panes, Scene, SceneView, SidePane,
};
use crate::notes::least;
use crate::screen::{keys_view, roster_view, status_view, wrapped};
use crate::style::{
    banner, line_views, marked, plain, strong, tinted, Color, LineView, SpanView, Style,
};
use crate::text::{begins, digits, fields};
use vstd::prelude::*;

verus! {

/// Every cell of `r` is one of `screen`.
pub open spec fn inside(r: Rect, screen: Rect) -> bool {
    forall|x: int, y: int| #[trigger] r.covers(x, y) ==> screen.covers(x, y)
}

/// What the sizes of the screen and its columns ask for.
proof fn lemma_sizes(footer: nat, hidden: bool)
    requires
        footer <= u16::MAX,
    ensures
        lengths_but(outer_sizes(footer), 0),
        lengths(outer_sizes(footer)) == footer,
        hundred(column_sizes(hidden)),
        hundredths(column_sizes(hidden).take(0)) == 0,
        !hidden ==> hundredths(column_sizes(hidden).take(1)) == 60,
{
    reveal_with_fuel(lengths, 3);
    reveal_with_fuel(hundredths, 3);
    assert(outer_sizes(footer).drop_last() =~= seq![Size::Min(0)]);
    assert(column_sizes(false).drop_last() =~= seq![Size::Percentage(60)]);
    assert(column_sizes(false).take(1) =~= seq![Size::Percentage(60)]);
}

/// What the sizes of the rows ask for.
proof fn lemma_row_sizes(status: nat, roster: nat)
    requires
        status < u16::MAX,
        roster < u16::MAX,
    ensures
        lengths_but(row_sizes(status, roster), 3),
        lengths(row_sizes(status, roster)) == status + roster + 5,
{
    reveal_with_fuel(lengths, 6);
    let all = row_sizes(status, roster);
    assert(all.drop_last() =~= all.take(4));
    assert(all.take(4).drop_last() =~= all.take(3));
    assert(all.take(3).drop_last() =~= all.take(2));
    assert(all.take(2).drop_last() =~= all.take(1));
    assert(all.take(1).drop_last() =~= all.take(0));
}

/// Nothing is drawn off the screen.
pub proof fn the_panes_lie_on_the_screen(
    panes: Panes,
    screen: Rect,
    hidden: bool,
    footer: nat,
    status: nat,
    roster: nat,
)
    requires
        laid_out(panes, screen, hidden, footer, status, roster),
    ensures
        inside(panes.footer, screen),
        inside(panes.title, screen),
        inside(panes.status, screen),
        inside(panes.roster, screen),
        inside(panes.log, screen),
        inside(panes.entry, screen),
        !hidden ==> inside(panes.side, screen),
{
}

/// The footer is as wide as the screen and has the last rows of it, one for each of its lines or
/// all there are, and every other pane ends above it.
pub proof fn the_footer_is_under_everything(
    panes: Panes,
    screen: Rect,
    hidden: bool,
    footer: nat,
    status: nat,
    roster: nat,
)
    requires
        laid_out(panes, screen, hidden, footer, status, roster),
        screen.regular(Direction::Down),
        footer <= u16::MAX,
    ensures
        ({
            let rows = least(footer as int, screen.height as int);
            panes.footer == Rect {
                x: screen.x,
                y: (screen.y + screen.height - rows) as u16,
                width: screen.width,
                height: rows as u16,
            }
        }),
        panes.title.bottom_edge() <= panes.footer.y,
        panes.status.bottom_edge() <= panes.footer.y,
        panes.roster.bottom_edge() <= panes.footer.y,
        panes.log.bottom_edge() <= panes.footer.y,
        panes.entry.bottom_edge() <= panes.footer.y,
        !hidden ==> panes.side.bottom_edge() <= panes.footer.y,
{
    lemma_sizes(footer, hidden);
}

/// Where everything has room, the log follows right below the players, with the one empty row that
/// the players leave, and the line of entry is right above the frame over the footer.
pub proof fn the_log_follows_the_roster(
    panes: Panes,
    screen: Rect,
    hidden: bool,
    footer: nat,
    status: nat,
    roster: nat,
)
    requires
        laid_out(panes, screen, hidden, footer, status, roster),
        screen.regular(Direction::Down),
        screen.regular(Direction::Across),
        screen.width >= 3,
        footer + status + roster + 7 <= screen.height,
    ensures
        panes.title.y == screen.y + 1,
        panes.status.y == panes.title.y + 2,
        panes.roster.y == panes.status.y + status + 1,
        panes.log.y == panes.roster.y + roster + 1,
        panes.entry.y == panes.log.y + panes.log.height,
        panes.entry.height == 1,
        panes.entry.y + 2 == panes.footer.y,
{
    lemma_sizes(footer, hidden);
    lemma_row_sizes(status, roster);
}

/// With the notes the rest has three fifths of the width, less a margin; hiding them gives it all
/// of the width.
pub proof fn hiding_the_notes_gives_the_width_back(
    panes: Panes,
    screen: Rect,
    hidden: bool,
    footer: nat,
    status: nat,
    roster: nat,
)
    requires
        laid_out(panes, screen, hidden, footer, status, roster),
        screen.regular(Direction::Down),
        screen.regular(Direction::Across),
        screen.width >= 3,
        footer + 2 <= screen.height,
    ensures
        panes.log.x == screen.x + 1,
        hidden ==> panes.log.width == screen.width - 2,
        !hidden ==> panes.log.width == (60 * screen.width + 50) / 100 - 2,
        !hidden ==> panes.side.x == panes.log.x + panes.log.width + 1,
        !hidden ==> panes.side.x + panes.side.width == screen.x + screen.width,
{
    lemma_sizes(footer, hidden);
}

/// What stands below everything is the error, in red, or else the message, or else the keys, dim;
/// wrapped to the width of the screen less a column at either side.
pub proof fn the_footer_shows_what_matters_most(a: AppView, screen: Rect, i: int)
    ensures
        ({
            let most = if screen.width > 3 {
                screen.width - 2
            } else {
                1
            };
            let v = footer_view(a, footer_width(screen));
            let (texts, colour) = if a.err.len() > 0 {
                (wrapped(fields(a.err, ' '), " "@, most), Color::Red)
            } else if a.flash.len() > 0 {
                (wrapped(fields(a.flash, ' '), " "@, most), Color::Cyan)
            } else {
                (wrapped(keys_view(a), " · "@, most), Color::DarkGray)
            };
            &&& v.len() == texts.len()
            &&& 0 <= i < v.len() ==> v[i] == LineView::of(texts[i], tinted(colour))
        }),
{
}

/// The command in a line is its first piece that begins like one.
pub proof fn the_command_is_the_first_that_reads_like_one(spans: Seq<SpanView>)
    ensures
        match command_in(spans) {
            Some(j) => {
                &&& 0 <= j < spans.len()
                &&& begins(spans[j].text, "headband "@)
                &&& forall|k: int|
                    0 <= k < j ==> !begins((#[trigger] spans[k]).text, "headband "@)
            },
            None => forall|k: int|
                0 <= k < spans.len() ==> !begins((#[trigger] spans[k]).text, "headband "@),
        },
    decreases spans.len(),
{
    if spans.len() > 0 {
        let init = spans.drop_last();
        the_command_is_the_first_that_reads_like_one(init);
        assert forall|k: int| 0 <= k < init.len() implies #[trigger] spans[k] == init[k] by {}
    }
}

/// Line `i` has the command `text`.
pub open spec fn offers(lines: Seq<LineView>, i: int, text: Seq<char>) -> bool {
    &&& 0 <= i < lines.len()
    &&& command_in(lines[i].spans) is Some
    &&& text == lines[i].spans[command_in(lines[i].spans)->0].text
}

/// Each line with a command is shared, under the row that it is in, and nothing else is.
pub proof fn each_row_shares_its_own_command(lines: Seq<LineView>, y: u16)
    requires
        y + lines.len() <= u16::MAX,
    ensures
        forall|k: int|
            0 <= k < shares(lines, y).len() ==> {
                let (row, text) = #[trigger] shares(lines, y)[k];
                offers(lines, row - y, text)
            },
        forall|i: int, text: Seq<char>| #[trigger]
            offers(lines, i, text) ==> shares(lines, y).contains(((y + i) as u16, text)),
    decreases lines.len(),
{
    if lines.len() > 0 {
        let init = lines.drop_last();
        let n = lines.len() - 1;
        each_row_shares_its_own_command(init, y);
        let before = shares(init, y);
        let after = shares(lines, y);
        assert forall|k: int| 0 <= k < after.len() implies {
            let (row, text) = #[trigger] after[k];
            offers(lines, row - y, text)
        } by {
            if k < before.len() {
                assert(after[k] == before[k]);
                assert(offers(init, before[k].0 - y, before[k].1));
            }
        }
        assert forall|i: int, text: Seq<char>| #[trigger]
            offers(lines, i, text) implies after.contains(((y + i) as u16, text)) by {
            if i < n {
                assert(offers(init, i, text));
                let pair = ((y + i) as u16, text);
                assert(before.contains(pair));
                let k = choose|k: int| 0 <= k < before.len() && before[k] == pair;
                assert(after[k] == pair);
            } else {
                assert(after.last() == ((y + i) as u16, text));
            }
        }
    }
}

/// Under the mouse a command is underlined and the sign behind it bright; nothing else looks
/// different, and no text changes.
pub proof fn the_mouse_lights_the_command(lines: Seq<LineView>, y: u16, hover: Option<u16>, i: int)
    requires
        0 <= i < lines.len(),
        y + lines.len() <= u16::MAX,
    ensures
        ({
            let v = lit_lines(lines, y, hover);
            let was = lines[i];
            let now = v[i];
            &&& v.len() == lines.len()
            &&& now.style == was.style
            &&& now.spans.len() == was.spans.len()
            &&& forall|k: int|
                0 <= k < was.spans.len() ==> (#[trigger] now.spans[k]).text == was.spans[k].text
            &&& hover != Some((y + i) as u16) || command_in(was.spans) is None ==> now == was
            &&& hover == Some((y + i) as u16) ==> (command_in(was.spans) matches Some(j) ==> {
                let look = was.spans[j].style;
                &&& now.spans[j].style == Style {
                    fg: look.fg,
                    bg: look.bg,
                    bold: look.bold,
                    underlined: true,
                }
                &&& j + 1 < was.spans.len() ==> now.spans[j + 1].style == strong(Color::Cyan)
                &&& forall|k: int|
                    0 <= k < was.spans.len() && k != j && k != j + 1 ==> #[trigger] now.spans[k]
                        == was.spans[k]
            })
        }),
{
    the_command_is_the_first_that_reads_like_one(lines[i].spans);
}

/// A line of the log that ends with a tick is a banner; any other is in the player's own colour if
/// it speaks of them, and dim if not.
pub proof fn a_line_of_the_log_looks_like_what_it_is(a: AppView, l: Seq<char>)
    ensures
        ({
            let hit = l.len() > 0 && l[l.len() - 1] == '✓';
            let own = speaker_of(a.state.players, l) == Some(a.you);
            &&& hit ==> log_line(a, l) == LineView::of(" "@ + l + " "@, banner())
            &&& !hit && own ==> log_line(a, l) == LineView::of(l, tinted(Color::Magenta))
            &&& !hit && !own ==> log_line(a, l) == LineView::of(l, tinted(Color::DarkGray))
        }),
{
}

/// The log shows so many of its lines as fit, the newest of them last, or, scrolled back, the one
/// so many lines before it; then its first row says how far back it is.
pub proof fn the_log_shows_the_lines_that_it_is_scrolled_to(a: AppView)
    requires
        0 <= a.log_scroll <= a.shown().len(),
    ensures
        ({
            let v = log_view(a);
            let rows = a.log_rect.height as int;
            let end = a.shown().len() - a.log_scroll;
            let n = if end < rows {
                end
            } else {
                rows
            };
            &&& a.log_scroll == 0 ==> v.len() == n && forall|k: int|
                0 <= k < n ==> #[trigger] v[k] == log_line(a, a.shown()[end - n + k])
            &&& a.log_scroll > 0 ==> {
                &&& v.len() == (if n + 1 < rows {
                    n + 1
                } else {
                    rows
                })
                &&& v.len() > 0 ==> v[0] == LineView::of(
                    "▲ "@ + digits(a.log_scroll as nat) + " older, scroll down for the latest"@,
                    tinted(Color::Red),
                )
                &&& forall|k: int|
                    1 <= k < v.len() ==> #[trigger] v[k] == log_line(
                        a,
                        a.shown()[end - n + k - 1],
                    )
            }
        }),
{
}

/// The line of entry shows what is typed behind a prompt, and that it waits if it does; or, with
/// nothing typed, what to type; and in the lobby nothing.
pub proof fn the_entry_shows_what_is_typed(a: AppView)
    requires
        a.entry.lines.len() > 0,
    ensures
        ({
            let v = entry_view(a);
            let typed = a.entry.lines[0];
            let dim = tinted(Color::DarkGray);
            let waits = !a.active();
            let name = match a.target() {
                Some(p) => p.name,
                None => Seq::empty(),
            };
            &&& v.style == plain()
            &&& a.joined && a.state.phase == "lobby"@ ==> v.spans.len() == 0
            &&& !a.joined || a.state.phase != "lobby"@ ==> {
                &&& v.spans[0].text == "> "@
                &&& v.spans[0].style == (if typed.len() == 0 || waits {
                    dim
                } else {
                    plain()
                })
                &&& typed.len() > 0 ==> {
                    &&& v.spans.len() == (if waits {
                        3int
                    } else {
                        2
                    })
                    &&& v.spans[1] == SpanView { text: typed, style: plain() }
                    &&& waits ==> v.spans[2] == SpanView {
                        text: "  waiting for your turn"@,
                        style: dim,
                    }
                }
                &&& typed.len() == 0 ==> {
                    &&& v.spans.len() == 2
                    &&& v.spans[1].style == dim
                    &&& !a.joined ==> v.spans[1].text == "your name"@
                    &&& a.joined && waits ==> v.spans[1].text == "queue your next guess"@
                    &&& a.joined && !waits && a.state.phase == "assign"@ ==> v.spans[1].text
                        == "what "@ + name + " is"@
                    &&& a.joined && !waits && a.state.phase != "assign"@ ==> v.spans[1].text
                        == "your guess"@
                }
            }
        }),
{
}

/// The notes show their lines from the one that they are scrolled to, as many as there is room for,
/// with what is selected marked; or, empty and out of focus, what they are for.
pub proof fn the_notes_show_their_lines(a: AppView, rows: u16)
    requires
        0 <= a.notes.scroll <= a.notes.lines.len(),
    ensures
        ({
            let v = notes_view(a, rows);
            let idle = a.notes.lines.len() == 1 && a.notes.lines[0].len() == 0 && !a.on_notes;
            let left = a.notes.lines.len() - a.notes.scroll;
            &&& idle ==> v == seq![
                LineView::of("click here to take notes"@, tinted(Color::DarkGray)),
            ]
            &&& !idle ==> {
                &&& v.len() == (if left < rows {
                    left
                } else {
                    rows as int
                })
                &&& forall|i: int|
                    0 <= i < v.len() ==> {
                        let parts = a.notes.segments(a.notes.scroll + i);
                        &&& (#[trigger] v[i]).style == plain()
                        &&& v[i].spans.len() == parts.len()
                        &&& forall|k: int|
                            0 <= k < parts.len() ==> #[trigger] v[i].spans[k] == (SpanView {
                                text: parts[k].0,
                                style: if parts[k].1 {
                                    marked()
                                } else {
                                    plain()
                                },
                            })
                    }
            }
        }),
{
    let none = seq![Seq::<char>::empty()];
    if a.notes.lines.len() == 1 && a.notes.lines[0].len() == 0 {
        assert(a.notes.lines[0] =~= Seq::empty());
        assert(a.notes.lines =~= none);
    } else if a.notes.lines == none {
        assert(none[0].len() == 0);
    }
}

/// The cursor is at the character of the notes that it is on, if they have the focus and it is in
/// view, though never right of their pane; else it is behind the prompt and so many characters of
/// the entry; and in the lobby nowhere.
pub proof fn the_cursor_is_where_typing_goes(a: AppView)
    requires
        0 <= a.notes.col <= u16::MAX,
        0 <= a.entry.col <= u16::MAX,
        a.notes_inner.x + a.notes_inner.width <= u16::MAX,
    ensures
        ({
            let c = cursor_view(a);
            let inner = a.notes_inner;
            let down = a.notes.row - a.notes.scroll;
            &&& a.on_notes && !(0 <= down < inner.height) ==> c is None
            &&& a.on_notes && 0 <= down < inner.height ==> {
                &&& c matches Some((x, y))
                &&& y == inner.y + down
                &&& a.notes.col < inner.width ==> x == inner.x + a.notes.col
                &&& a.notes.col >= inner.width && inner.width > 0 ==> x == inner.x + inner.width - 1
            }
            &&& !a.on_notes && a.joined && a.state.phase == "lobby"@ ==> c is None
            &&& !a.on_notes && (!a.joined || a.state.phase != "lobby"@) ==> c == Some(
                (a.entry_rect.x + 2 + a.entry.col, a.entry_rect.y as int),
            )
        }),
{
}

/// Drawing notes what was drawn where: the rows to copy, the log, the line of entry, and the notes
/// inside their frame, or nowhere if they are hidden; and brings the log back within its history.
/// Nothing else changes.
pub proof fn drawing_notes_what_is_where(a: AppView, panes: Panes, status: Seq<LineView>)
    requires
        a.log_scroll >= 0,
    ensures
        ({
            let b = noted(a, panes, status);
            &&& b == (AppView {
                share: shares(status, panes.status.y),
                log_rect: panes.log,
                entry_rect: panes.entry,
                notes_inner: b.notes_inner,
                log_scroll: b.log_scroll,
                ..a
            })
            &&& a.notes_hidden ==> b.notes_inner == (Rect { x: 0, y: 0, width: 0, height: 0 })
            &&& !a.notes_hidden ==> b.notes_inner == panes.side.within_frame()
            &&& a.log_scroll <= b.max_log_scroll() ==> b.log_scroll == a.log_scroll
            &&& a.log_scroll > b.max_log_scroll() ==> b.log_scroll == b.max_log_scroll()
        }),
{
    let b = noted(a, panes, status);
    let c = AppView { log_scroll: a.log_scroll, ..b };
    assert(b.shows() =~= c.shows());
}

/// Everything is drawn in its own pane: the footer inside a margin of a column, the title, the
/// status with what the mouse is over, the players, the log, the entry and, unless hidden, the
/// notes, framed in bright if they have the focus.
pub proof fn everything_is_drawn_in_its_pane(
    a: AppView,
    panes: Panes,
    footer: Seq<LineView>,
    status: Seq<LineView>,
    roster: Seq<LineView>,
)
    ensures
        ({
            let s = composed(a, panes, footer, status, roster);
            let b = noted(a, panes, status);
            &&& s.footer == footer && s.footer_area == panes.footer.shrunk(1, 0)
            &&& s.title == LineView::of("HEADBAND"@, strong(Color::Cyan))
            &&& s.title_area == panes.title
            &&& s.status == lit_lines(status, panes.status.y, a.hover)
            &&& s.status_area == panes.status
            &&& s.roster == roster && s.roster_area == panes.roster
            &&& s.log == log_view(b) && s.log_area == panes.log
            &&& s.entry == entry_view(a) && s.entry_area == panes.entry
            &&& s.cursor == cursor_view(b)
            &&& a.notes_hidden <==> s.notes is None
            &&& s.notes matches Some(p) ==> {
                &&& p.area == panes.side
                &&& p.inner == panes.side.within_frame()
                &&& p.lines == notes_view(a, p.inner.height)
                &&& a.on_notes ==> p.border == tinted(Color::Cyan)
                &&& !a.on_notes ==> p.border == tinted(Color::DarkGray)
                &&& p.title.spans == seq![
                    SpanView { text: " NOTES "@, style: strong(Color::Cyan) },
                ]
                &&& p.title.style == plain()
            }
        }),
{
    let b = noted(a, panes, status);
    assert(entry_view(b) == entry_view(a));
    assert(notes_view(b, b.notes_inner.height) =~= notes_view(a, b.notes_inner.height));
}

/// What is drawn is the game: its footer, its status and its players, on a division of the screen
/// for that many lines; and what is noted is what was drawn.
pub proof fn what_is_drawn_is_the_game(
    a: AppView,
    screen: Rect,
    lan: Seq<char>,
    now: i64,
    panes: Panes,
    after: AppView,
    scene: Option<SceneView>,
)
    requires
        drawn(a, screen, lan, now, panes, after, scene),
    ensures
        ({
            let foot = footer_view(a, footer_width(screen));
            let news = status_view(a, lan, now);
            let seats = roster_view(a);
            &&& laid_out(panes, screen, a.notes_hidden, foot.len(), news.len(), seats.len())
            &&& scene is None ==> after == a
            &&& scene matches Some(s) ==> {
                &&& after == noted(a, panes, news)
                &&& s.footer == foot
                &&& s.status == lit_lines(news, panes.status.y, a.hover)
                &&& s.roster == seats
                &&& s.log == log_view(after)
                &&& s.entry == entry_view(a)
                &&& s.cursor == cursor_view(after)
            }
        }),
{
    everything_is_drawn_in_its_pane(
        a,
        panes,
        footer_view(a, footer_width(screen)),
        status_view(a, lan, now),
        roster_view(a),
    );
}

/// The view of a scene has all of it.
pub proof fn a_scene_is_in_its_view(s: Scene, p: SidePane)
    ensures
        s@.footer == line_views(s.footer@) && s@.footer_area == s.footer_area,
        s@.title == s.title@ && s@.title_area == s.title_area,
        s@.status == line_views(s.status@) && s@.status_area == s.status_area,
        s@.roster == line_views(s.roster@) && s@.roster_area == s.roster_area,
        s@.log == line_views(s.log@) && s@.log_area == s.log_area,
        s@.entry == s.entry@ && s@.entry_area == s.entry_area,
        s.notes is None <==> s@.notes is None,
        s.notes matches Some(q) ==> s@.notes == Some(q@),
        s.cursor is None <==> s@.cursor is None,
        s.cursor matches Some(c) ==> s@.cursor == Some((c.0 as int, c.1 as int)),
        p@.area == p.area && p@.border == p.border && p@.title == p.title@,
        p@.inner == p.inner && p@.lines == line_views(p.lines@),
{
}

} // verus!
