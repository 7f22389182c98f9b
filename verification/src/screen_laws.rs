//! What a player sees, and where.

use crate::app::AppView;
use crate::app_laws::on_one_line;
use crate::area::Rect;
use crate::screen::{
    clock_view, filled, keys_view, one_at_least, roster_view, seconds_left, status_view, wrapped,
};
use crate::style::{
    banner, line_views, marked, plain, span_views, strong, tinted, Color, Line, LineView, Span,
    SpanView, Style,
};
use crate::game::{PlayerView, StateView};
use crate::text::{begins, digits, indented, run, text_lines};
use vstd::prelude::*;

verus! {

/// A rectangle on the screen covers the columns from its own on, as many as it is wide, and the
/// rows likewise.
pub proof fn a_rectangle_covers_its_cells(r: Rect, x: int, y: int)
    requires
        r.x + r.width <= u16::MAX,
        r.y + r.height <= u16::MAX,
    ensures
        r.right_edge() == r.x + r.width,
        r.bottom_edge() == r.y + r.height,
        r.covers(x, y) <==> 0 <= x - r.x < r.width && 0 <= y - r.y < r.height,
{
}

/// A new rectangle has the size that was asked for, or as much of it as there are coordinates for,
/// and covers the same cells as one that was not cut.
pub proof fn a_new_rectangle_ends_where_the_coordinates_do(
    x: u16,
    y: u16,
    width: u16,
    height: u16,
    i: int,
    j: int,
)
    ensures
        ({
            let r = Rect::cut_at_the_edge(x, y, width, height);
            &&& r.x == x && r.y == y
            &&& x + width <= 65535 ==> r.width == width
            &&& x + width > 65535 ==> x + r.width == 65535
            &&& y + height <= 65535 ==> r.height == height
            &&& y + height > 65535 ==> y + r.height == 65535
            &&& r.covers(i, j) <==> (Rect { x, y, width, height }).covers(i, j)
            &&& r.covers(i, j) <==> x <= i < x + width && y <= j < y + height && i < 65535 && j
                < 65535
        }),
{
}

/// A cell is inside a margin of `h` columns and `v` rows exactly where the cells that far from it
/// are in the rectangle too.
pub proof fn a_margin_keeps_its_distance(r: Rect, h: u16, v: u16, x: int, y: int)
    requires
        r.x + r.width <= u16::MAX,
        r.y + r.height <= u16::MAX,
        2 * h <= u16::MAX,
        2 * v <= u16::MAX,
    ensures
        r.shrunk(h as int, v as int).covers(x, y) <==> r.covers(x - h, y - v) && r.covers(
            x + h,
            y + v,
        ),
        r.width >= 2 * h && r.height >= 2 * v ==> {
            let s = r.shrunk(h as int, v as int);
            &&& s.width == r.width - 2 * h && s.height == r.height - 2 * v
            &&& s.x == r.x + h || r.x + h > u16::MAX
            &&& s.y == r.y + v || r.y + v > u16::MAX
        },
        r.width < 2 * h || r.height < 2 * v ==> r.shrunk(h as int, v as int) == (Rect {
            x: 0,
            y: 0,
            width: 0,
            height: 0,
        }),
{
}

/// A cell is inside a frame exactly where all the cells around it are in the rectangle.
pub proof fn a_frame_is_one_cell_wide(r: Rect, x: int, y: int)
    requires
        r.x + r.width <= u16::MAX,
        r.y + r.height <= u16::MAX,
    ensures
        r.within_frame().covers(x, y) <==> r.covers(x - 1, y - 1) && r.covers(x + 1, y + 1),
        r.width >= 2 && r.height >= 2 ==> r.within_frame() == (Rect {
            x: (r.x + 1) as u16,
            y: (r.y + 1) as u16,
            width: (r.width - 2) as u16,
            height: (r.height - 2) as u16,
        }),
{
}

/// The looks that there are.
pub proof fn looks_are_what_they_are_called(c: Color)
    ensures
        plain() == (Style { fg: None, bg: None, bold: false, underlined: false }),
        tinted(c) == (Style { fg: Some(c), bg: None, bold: false, underlined: false }),
        strong(c) == (Style { fg: Some(c), bg: None, bold: true, underlined: false }),
        banner() == (Style {
            fg: Some(Color::Black),
            bg: Some(Color::Green),
            bold: true,
            underlined: false,
        }),
        marked() == (Style {
            fg: Some(Color::Black),
            bg: Some(Color::Cyan),
            bold: false,
            underlined: false,
        }),
{
}

/// A line of text has a piece for each line of the text, in no style of its own, and its style is
/// that of the whole; a line of pieces has those pieces.
pub proof fn a_line_has_its_pieces(text: Seq<char>, style: Style, spans: Seq<SpanView>)
    ensures
        ({
            let l = LineView::of(text, style);
            &&& l.style == style
            &&& l.spans.len() == text_lines(text).len()
            &&& forall|i: int|
                0 <= i < l.spans.len() ==> (#[trigger] l.spans[i]).text == text_lines(text)[i]
                    && l.spans[i].style == plain()
            &&& LineView::from(spans) == LineView { spans, style: plain() }
            &&& SpanView::of(text, style) == SpanView { text, style }
            &&& SpanView::bare(text) == SpanView { text, style: plain() }
        }),
{
}

/// The views of lines and pieces have all of them.
pub proof fn lines_are_in_their_views(s: Span, l: Line, spans: Seq<Span>, lines: Seq<Line>)
    ensures
        s@ == (SpanView { text: s.text@, style: s.style }),
        l@.style == l.style,
        l@.spans == span_views(l.spans@),
        span_views(spans).len() == spans.len(),
        forall|i: int| 0 <= i < spans.len() ==> #[trigger] span_views(spans)[i] == spans[i]@,
        line_views(lines).len() == lines.len(),
        forall|i: int| 0 <= i < lines.len() ==> #[trigger] line_views(lines)[i] == lines[i]@,
{
}

/// The clock counts the seconds to the end of the turn, one that has begun as a whole one.
pub proof fn seconds_are_counted_up(deadline: i64, now: i64)
    requires
        i64::MIN <= deadline - now <= i64::MAX,
    ensures
        now >= deadline ==> seconds_left(deadline, now) == 0,
        now < deadline ==> {
            let left = seconds_left(deadline, now);
            (left - 1) * 1000 < deadline - now <= left * 1000
        },
{
}

/// Of the 24 cells of the bar so many are filled as the seconds left are of 90, rounded down.
pub proof fn the_bar_is_filled_in_proportion(left: int)
    requires
        left >= 0,
    ensures
        left >= 90 ==> filled(left) == 24,
        left < 90 ==> filled(left) * 90 <= left * 24 < (filled(left) + 1) * 90,
{
}

/// The clock shows the seconds, in two columns at least, and the bar; in red for the last fifteen
/// seconds. A turn without an end has no clock.
pub proof fn the_clock_shows_the_time_left(deadline: i64, now: i64)
    ensures
        deadline == 0 ==> clock_view(deadline, now).len() == 0,
        deadline != 0 ==> ({
            let v = clock_view(deadline, now);
            let left = seconds_left(deadline, now);
            let colour = if left <= 15 {
                Color::Red
            } else {
                Color::Cyan
            };
            &&& v.len() == 2
            &&& v[0].text == indented(digits(left as nat), 2) + "s "@ + run(
                '█',
                filled(left) as nat,
            )
            &&& v[0].style == Style { fg: Some(colour), bg: None, bold: true, underlined: false }
            &&& v[1].text == run('░', (24 - filled(left)) as nat)
            &&& v[1].style == Style {
                fg: Some(Color::DarkGray),
                bg: None,
                bold: false,
                underlined: false,
            }
        }),
{
}

/// Wrapping loses nothing and changes no order: the lines, put on one line again, are the items on
/// one line.
pub proof fn wrapping_keeps_everything_in_order(
    items: Seq<Seq<char>>,
    sep: Seq<char>,
    width: int,
)
    requires
        forall|i: int| 0 <= i < items.len() ==> (#[trigger] items[i]).len() > 0,
    ensures
        on_one_line(wrapped(items, sep, width), sep) == on_one_line(items, sep),
        items.len() > 0 ==> forall|k: int|
            0 <= k < wrapped(items, sep, width).len() ==> (#[trigger] wrapped(
                items,
                sep,
                width,
            )[k]).len() > 0,
        wrapped(items, sep, width).len() > 0,
    decreases items.len(),
{
    let after = wrapped(items, sep, width);
    if items.len() > 0 {
        let init = items.drop_last();
        let before = wrapped(init, sep, width);
        let item = items.last();
        assert forall|i: int| 0 <= i < init.len() implies (#[trigger] init[i]).len() > 0 by {
            assert(items[i].len() > 0);
        }
        assert(items[items.len() - 1].len() > 0);
        wrapping_keeps_everything_in_order(init, sep, width);
        if init.len() == 0 {
            assert(before =~= seq![Seq::<char>::empty()]);
            assert(after =~= seq![item]);
            assert(items =~= seq![item]);
        } else {
            let last = before.last();
            assert(before[before.len() - 1].len() > 0);
            if last.len() + sep.len() + item.len() <= width {
                assert(after =~= before.drop_last().push(last + sep + item));
                assert(after.drop_last() =~= before.drop_last());
                if before.len() == 1 {
                    assert(after[0] == last + sep + item);
                    assert(before[0] == last);
                } else {
                    let head = on_one_line(before.drop_last(), sep);
                    assert(on_one_line(after, sep) == head + sep + (last + sep + item));
                    assert(head + sep + (last + sep + item) =~= (head + sep + last) + sep + item);
                }
            } else {
                assert(after =~= before.push(item));
                assert(after.drop_last() =~= before);
            }
            assert forall|k: int| 0 <= k < after.len() implies (#[trigger] after[k]).len() > 0 by {
                if k < before.len() - 1 {
                    assert(after[k] == before[k]);
                }
            }
        }
    } else {
        assert(after =~= seq![Seq::<char>::empty()]);
    }
}

/// One more item goes on the last line, behind the separator, if it fits; alone on it, if the line
/// is empty; and else on a new line. The lines before stay as they are.
pub proof fn one_more_item_goes_on_the_last_line(
    items: Seq<Seq<char>>,
    item: Seq<char>,
    sep: Seq<char>,
    width: int,
)
    ensures
        ({
            let w = wrapped(items, sep, width);
            let v = wrapped(items.push(item), sep, width);
            let n = w.len() - 1;
            let last = w[n];
            &&& n >= 0
            &&& forall|k: int| 0 <= k < n ==> #[trigger] v[k] == w[k]
            &&& last.len() == 0 ==> v.len() == n + 1 && v[n] == item
            &&& last.len() > 0 && last.len() + sep.len() + item.len() <= width ==> v.len() == n + 1
                && v[n] == last + sep + item
            &&& last.len() > 0 && last.len() + sep.len() + item.len() > width ==> v.len() == n + 2
                && v[n] == last && v[n + 1] == item
        }),
        wrapped(Seq::empty(), sep, width).len() == 1,
        wrapped(Seq::empty(), sep, width)[0].len() == 0,
    decreases items.len(),
{
    let w = wrapped(items, sep, width);
    assert(items.push(item).drop_last() =~= items);
    if items.len() > 0 {
        one_more_item_goes_on_the_last_line(items.drop_last(), items.last(), sep, width);
        assert(items.drop_last().push(items.last()) =~= items);
    }
    assert(w.len() >= 1);
}

/// A new line is begun only by an item that did not fit on the one before.
pub proof fn a_new_line_is_begun_only_where_it_must(
    items: Seq<Seq<char>>,
    sep: Seq<char>,
    width: int,
    k: int,
)
    requires
        forall|i: int| 0 <= i < items.len() ==> (#[trigger] items[i]).len() > 0,
        0 <= k,
        k + 1 < wrapped(items, sep, width).len(),
    ensures
        exists|i: int|
            {
                &&& 0 <= i < items.len()
                &&& begins(wrapped(items, sep, width)[k + 1], #[trigger] items[i])
                &&& wrapped(items, sep, width)[k].len() + sep.len() + items[i].len() > width
            },
    decreases items.len(),
{
    let after = wrapped(items, sep, width);
    let init = items.drop_last();
    let before = wrapped(init, sep, width);
    let item = items.last();
    assert(items.len() > 0);
    assert forall|i: int| 0 <= i < init.len() implies (#[trigger] init[i]).len() > 0 by {
        assert(items[i].len() > 0);
    }
    wrapping_keeps_everything_in_order(init, sep, width);
    let last = before.last();
    if k + 1 < before.len() {
        a_new_line_is_begun_only_where_it_must(init, sep, width, k);
        let i = choose|i: int|
            {
                &&& 0 <= i < init.len()
                &&& begins(before[k + 1], #[trigger] init[i])
                &&& before[k].len() + sep.len() + init[i].len() > width
            };
        assert(items[i] == init[i]);
        assert(after[k] == before[k]);
        if k + 1 == before.len() - 1 && after.len() == before.len() {
            assert(init.len() > 0);
            assert(before[before.len() - 1].len() > 0);
            assert(after[k + 1] == last + sep + item);
            assert(after[k + 1].subrange(0, items[i].len() as int) =~= before[k + 1].subrange(
                0,
                items[i].len() as int,
            ));
        }
    } else {
        assert(after =~= before.push(item));
        assert(after[k] == last);
        assert(after[k + 1] == item);
        assert(item.subrange(0, item.len() as int) =~= item);
        assert(items[items.len() - 1] == item);
        if init.len() == 0 {
            assert(before =~= seq![Seq::<char>::empty()]);
        }
    }
}

/// The keys that are explained: to the host, how to start from the lobby, and else how to begin a
/// new round; how to move between panes, while there are two; and always the same five.
pub proof fn the_keys_that_work_are_explained(a: AppView)
    ensures
        ({
            let v = keys_view(a);
            let host = a.joined && a.you == 0;
            let extra = (if host {
                1int
            } else {
                0
            }) + (if a.notes_hidden {
                0int
            } else {
                1
            });
            &&& v.len() == 5 + extra
            &&& host && a.state.phase == "lobby"@ ==> v[0] == "ctrl+s: start"@
            &&& host && a.state.phase != "lobby"@ ==> v[0] == "ctrl+r: new round"@
            &&& !a.notes_hidden ==> v[extra - 1] == "tab: panes"@
            &&& v[extra] == "ctrl+n: notes"@
            &&& v[extra + 1] == "ctrl+u/d: log"@
            &&& v[extra + 2] == "ctrl+g: just me"@
            &&& v[extra + 3] == "ctrl+k: pass"@
            &&& v[extra + 4] == "ctrl+q: quit"@
        }),
{
}

/// Everybody sees everybody's thing but their own, which they see once they have got it.
pub proof fn everybody_sees_the_things_of_the_others(a: AppView, i: int)
    requires
        0 <= i < a.state.players.len(),
        i != a.you || a.state.players[i].done,
        a.state.players[i].thing.len() > 0,
    ensures
        roster_view(a).len() == a.state.players.len(),
        roster_view(a)[i].spans.len() >= 3,
        roster_view(a)[i].spans[2].text == a.state.players[i].thing,
{
}

/// Who has no thing yet is shown with a dash; one's own thing, before it is guessed, with question
/// marks.
pub proof fn nobody_sees_a_thing_that_is_not_for_them(a: AppView, i: int)
    requires
        0 <= i < a.state.players.len(),
    ensures
        i == a.you && !a.state.players[i].done ==> roster_view(a)[i].spans[2].text == "???"@,
        (i != a.you || a.state.players[i].done) && a.state.players[i].thing.len() == 0
            ==> roster_view(a)[i].spans[2].text == "-"@,
{
}

/// A player is shown on their own line: an arrow if it is their turn, their name in twenty columns,
/// marked as the player's own where it is, their thing, a tick if they have got it, and that they
/// are gone if they are.
pub proof fn a_player_is_shown_on_their_line(a: AppView, i: int)
    requires
        0 <= i < a.state.players.len(),
    ensures
        ({
            let p = a.state.players[i];
            let v = roster_view(a)[i].spans;
            let name = if i == a.you {
                p.name + " (you)"@
            } else {
                p.name
            };
            let look = if i == a.you {
                Style { fg: Some(Color::Magenta), bg: None, bold: true, underlined: false }
            } else {
                Style { fg: None, bg: None, bold: false, underlined: false }
            };
            let ticks = if p.done {
                1int
            } else {
                0
            };
            let gone = if p.off {
                1int
            } else {
                0
            };
            &&& roster_view(a)[i].style == plain()
            &&& v.len() == 3 + ticks + gone
            &&& a.state.phase == "play"@ && a.state.turn == i ==> v[0].text == "▶ "@
            &&& a.state.phase != "play"@ || a.state.turn != i ==> v[0].text == "  "@
            &&& v[0].style == strong(Color::Cyan)
            &&& begins(v[1].text, name)
            &&& name.len() <= 20 ==> v[1].text.len() == 20
            &&& name.len() > 20 ==> v[1].text == name
            &&& forall|k: int| name.len() <= k < v[1].text.len() ==> #[trigger] v[1].text[k] == ' '
            &&& v[1].style == look && v[2].style == look
            &&& p.done ==> v[3] == SpanView { text: " ✓"@, style: plain() }
            &&& p.off ==> v[3 + ticks] == SpanView {
                text: " (gone)"@,
                style: tinted(Color::DarkGray),
            }
        }),
{
    let p = a.state.players[i];
    let name = if i == a.you {
        p.name + " (you)"@
    } else {
        p.name
    };
    let v = roster_view(a)[i].spans;
    assert(v[1].text.subrange(0, name.len() as int) =~= name);
}

/// Before joining, the player is asked for a name; in the lobby, they are told how many are there,
/// where friends can join, or where they joined, and who starts.
pub proof fn the_lobby_says_how_to_join(a: AppView, lan: Seq<char>, now: i64)
    ensures
        ({
            let v = status_view(a, lan, now);
            let accent = strong(Color::Cyan);
            let dim = tinted(Color::DarkGray);
            &&& !a.joined ==> v == seq![LineView::of("Type your name and hit enter."@, accent)]
            &&& a.joined && a.state.phase == "lobby"@ ==> {
                &&& v[0] == LineView::of(
                    "Lobby: "@ + digits(a.state.players.len()) + " connected."@,
                    accent,
                )
                &&& a.you == 0 ==> v.last() == LineView::of(
                    "ctrl+s to start (2+ players)."@,
                    accent,
                )
                &&& a.you != 0 ==> v.last() == LineView::of(
                    "Waiting for the host to start."@,
                    dim,
                )
                &&& a.addr matches Some(at) ==> v.len() == 3 && v[1] == LineView::of(
                    "Joined "@ + at + "."@,
                    dim,
                )
                &&& a.addr is None ==> {
                    &&& v.len() == (if a.pub_ip.len() > 0 {
                        4int
                    } else {
                        3
                    })
                    &&& v[1].spans.len() == 4 && v[1].style == plain()
                    &&& v[1].spans[0] == SpanView { text: "Friends run  "@, style: plain() }
                    &&& v[1].spans[1] == SpanView { text: "headband "@ + lan, style: accent }
                    &&& v[1].spans[2] == SpanView { text: " ⧉ "@, style: dim }
                    &&& v[1].spans[3] == SpanView { text: "  same wifi"@, style: dim }
                    &&& a.pub_ip.len() > 0 ==> {
                        &&& v[2].spans.len() == 4 && v[2].style == plain()
                        &&& v[2].spans[0] == SpanView { text: "          or "@, style: plain() }
                        &&& v[2].spans[1] == SpanView {
                            text: "headband "@ + (a.pub_ip + ":"@ + a.port),
                            style: accent,
                        }
                        &&& v[2].spans[2] == SpanView { text: " ⧉ "@, style: dim }
                        &&& v[2].spans[3] == SpanView { text: "  internet"@, style: dim }
                    }
                }
            }
        }),
{
}

/// While things are named, the player is told for whom to name one, until they have; after the
/// game, what they were.
pub proof fn the_status_says_what_to_do(a: AppView, lan: Seq<char>, now: i64)
    requires
        a.joined,
    ensures
        ({
            let v = status_view(a, lan, now);
            let accent = strong(Color::Cyan);
            let ask = |name: Seq<char>|
                seq![LineView::of("You assign "@ + name + ". What are they?"@, accent)];
            &&& a.state.phase == "assign"@ && a.state.phase != "lobby"@ ==> {
                &&& a.target() matches Some(p) ==> {
                    &&& p.thing.len() == 0 ==> v == ask(p.name)
                    &&& p.thing.len() > 0 ==> v == seq![
                        LineView::of(
                            "Sent. Waiting for everyone else."@,
                            tinted(Color::DarkGray),
                        ),
                    ]
                }
                &&& a.target() is None ==> v == ask(Seq::empty())
            }
            &&& a.state.phase != "lobby"@ && a.state.phase != "assign"@ && a.state.phase != "play"@
                ==> v == seq![
                LineView::of("Game over. You were: "@ + a.state.players[a.you].thing, accent),
            ]
        }),
{
    assert("You assign "@ + Seq::<char>::empty() =~= "You assign "@);
}

/// While the game is on, the player is told whose turn it is, with the clock; who has got it, that
/// and what they are; who has not, and has the turn, what to do.
pub proof fn the_status_says_whose_turn_it_is(a: AppView, lan: Seq<char>, now: i64)
    requires
        a.joined,
        a.state.phase == "play"@,
        a.state.phase != "lobby"@,
        a.state.phase != "assign"@,
    ensures
        ({
            let v = status_view(a, lan, now);
            let me = a.state.players[a.you];
            let mine = a.state.turn == a.you;
            let dim = tinted(Color::DarkGray);
            let head = if me.done {
                v[1]
            } else {
                v[0]
            };
            &&& v.len() == (if me.done {
                3int
            } else if mine {
                2
            } else {
                1
            })
            &&& head.style == plain()
            &&& head.spans.len() == 2 + clock_view(a.state.deadline, now).len()
            &&& mine ==> head.spans[0] == SpanView {
                text: "YOUR TURN"@,
                style: strong(Color::Cyan),
            }
            &&& !mine ==> head.spans[0] == SpanView {
                text: a.state.players[a.state.turn].name + " is asking."@,
                style: dim,
            }
            &&& head.spans[1] == SpanView { text: "  "@, style: plain() }
            &&& head.spans.skip(2) == clock_view(a.state.deadline, now)
            &&& me.done ==> v[0] == LineView::of(" YOU GOT IT: "@ + me.thing + " "@, banner())
            &&& me.done ==> v[2] == LineView::of("Hang around and watch the others suffer."@, dim)
            &&& !me.done && mine ==> v[1] == LineView::of(
                "ask your yes/no question, then type a guess, or ctrl+k to pass."@,
                dim,
            )
        }),
{
    let v = status_view(a, lan, now);
    let head = if a.state.players[a.you].done {
        v[1]
    } else {
        v[0]
    };
    assert(head.spans.skip(2) =~= clock_view(a.state.deadline, now));
}

/// Until the game is over, the status tells nobody their own thing before they have got it.
pub proof fn the_status_keeps_the_secret(a: AppView, lan: Seq<char>, now: i64, thing: Seq<char>)
    requires
        0 <= a.you < a.state.players.len(),
        !a.state.players[a.you].done,
        a.state.phase == "lobby"@ || a.state.phase == "assign"@ || a.state.phase == "play"@,
        a.you < a.state.assigns.len() ==> a.state.assigns[a.you] != a.you,
        a.state.phase == "play"@ ==> 0 <= a.state.turn < a.state.players.len(),
    ensures
        ({
            let p = a.state.players[a.you];
            let q = PlayerView { thing, ..p };
            let b = AppView {
                state: StateView { players: a.state.players.update(a.you, q), ..a.state },
                ..a
            };
            status_view(b, lan, now) == status_view(a, lan, now)
        }),
{
    let p = a.state.players[a.you];
    let q = PlayerView { thing, ..p };
    let b = AppView {
        state: StateView { players: a.state.players.update(a.you, q), ..a.state },
        ..a
    };
    assert(b.target() == a.target());
    assert(status_view(b, lan, now) =~= status_view(a, lan, now));
}

/// A width of none counts as one.
pub proof fn a_width_is_one_at_least(n: u16)
    ensures
        n > 0 ==> one_at_least(n) == n,
        n == 0 ==> one_at_least(n) == 1,
{
}

} // verus!
