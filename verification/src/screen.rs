//! What a player sees.

use crate::app::{App, AppView};
use crate::game::State;
use crate::host::TURN_LIMIT;
use crate::startup::endpoint;
use crate::style::{
    add_line, add_span, banner, line_views, plain, span_views, strong, tinted, Color, Line,
    LineView, Span, SpanView, Style, ACCENT, BAD, DIM, MINE,
};
use crate::text::{
    decimal, digits, indented, pad_end, pad_start, padded, plus, repeat, run, same, slice_views,
    views, width,
};
use vstd::prelude::*;

verus! {

/// How many cells the clock has.
pub const BAR_CELLS: u64 = 24;

/// At how many seconds the clock turns red.
pub const LAST_SECONDS: u64 = 15;

/// The seconds from `now` to `deadline`, begun ones counted whole; none once it has passed.
pub open spec fn seconds_left(deadline: i64, now: i64) -> int {
    let ms = deadline.wrapping_sub(now);
    if ms <= 0 {
        0
    } else {
        (ms + 999) / 1000
    }
}

/// How many cells of the clock `left` seconds fill.
pub open spec fn filled(left: int) -> int {
    let n = left * BAR_CELLS / (TURN_LIMIT as int / 1000);
    if n < BAR_CELLS {
        n
    } else {
        BAR_CELLS as int
    }
}

/// The clock: the seconds left and a bar of cells. A turn without an end has none.
pub open spec fn clock_view(deadline: i64, now: i64) -> Seq<SpanView> {
    if deadline == 0 {
        Seq::empty()
    } else {
        let left = seconds_left(deadline, now);
        let color = if left <= LAST_SECONDS {
            BAD
        } else {
            ACCENT
        };
        seq![
            SpanView::of(
                indented(digits(left as nat), 2) + "s "@ + run('█', filled(left) as nat),
                strong(color),
            ),
            SpanView::of(run('░', (BAR_CELLS - filled(left)) as nat), tinted(DIM)),
        ]
    }
}

/// The lines after `item` is put behind them: on the last line, behind `sep`, where it fits in
/// `width`.
pub open spec fn put(lines: Seq<Seq<char>>, item: Seq<char>, sep: Seq<char>, width: int) -> Seq<
    Seq<char>,
> {
    let line = lines.last();
    if line.len() == 0 {
        lines.drop_last().push(item)
    } else if line.len() + sep.len() + item.len() <= width {
        lines.drop_last().push(line + sep + item)
    } else {
        lines.push(item)
    }
}

/// `items` in lines, as many on each as fit in `width`.
pub open spec fn wrapped(items: Seq<Seq<char>>, sep: Seq<char>, width: int) -> Seq<Seq<char>>
    decreases items.len(),
{
    if items.len() == 0 {
        seq![Seq::empty()]
    } else {
        put(wrapped(items.drop_last(), sep, width), items.last(), sep, width)
    }
}

/// `n`, or 1 for none.
pub open spec fn one_at_least(n: u16) -> int {
    if n < 1 {
        1
    } else {
        n as int
    }
}

/// What the keys do, for this player.
pub open spec fn keys_view(a: AppView) -> Seq<Seq<char>> {
    let always = seq![
        "ctrl+n: notes"@,
        "ctrl+u/d: log"@,
        "ctrl+g: just me"@,
        "ctrl+k: pass"@,
        "ctrl+q: quit"@,
    ];
    let panes = if a.notes_hidden {
        Seq::empty()
    } else {
        seq!["tab: panes"@]
    };
    let host = if a.you == 0 && a.joined {
        if a.state.phase == "lobby"@ {
            seq!["ctrl+s: start"@]
        } else {
            seq!["ctrl+r: new round"@]
        }
    } else {
        Seq::empty()
    };
    host + panes + always
}

/// Player `i` as player `a.you` sees them: nobody sees their own thing before they have guessed it.
pub open spec fn seat_view(a: AppView, i: int) -> LineView {
    let q = a.state.players[i];
    let me = i == a.you;
    let thing = if me && !q.done {
        "???"@
    } else if q.thing.len() == 0 {
        "-"@
    } else {
        q.thing
    };
    let name = if me {
        q.name + " (you)"@
    } else {
        q.name
    };
    let style = if me {
        strong(MINE)
    } else {
        plain()
    };
    let arrow = if a.state.phase == "play"@ && a.state.turn == i {
        "▶ "@
    } else {
        "  "@
    };
    let done = if q.done {
        seq![SpanView::bare(" ✓"@)]
    } else {
        Seq::empty()
    };
    let gone = if q.off {
        seq![SpanView::of(" (gone)"@, tinted(DIM))]
    } else {
        Seq::empty()
    };
    LineView::from(
        seq![
            SpanView::of(arrow, strong(ACCENT)),
            SpanView::of(padded(name, 20), style),
            SpanView::of(thing, style),
        ] + done + gone,
    )
}

/// The players.
pub open spec fn roster_view(a: AppView) -> Seq<LineView> {
    Seq::new(a.state.players.len(), |i: int| seat_view(a, i))
}

/// A command that others can run to join.
pub open spec fn invitation(lead: Seq<char>, at: Seq<char>, reach: Seq<char>) -> LineView {
    LineView::from(
        seq![
            SpanView::bare(lead),
            SpanView::of("headband "@ + at, strong(ACCENT)),
            SpanView::of(" ⧉ "@, tinted(DIM)),
            SpanView::of(reach, tinted(DIM)),
        ],
    )
}

/// The lobby; `lan` is where the host can be reached from nearby.
pub open spec fn lobby_view(a: AppView, lan: Seq<char>) -> Seq<LineView> {
    let count = LineView::of(
        "Lobby: "@ + digits(a.state.players.len()) + " connected."@,
        strong(ACCENT),
    );
    let where_to = match a.addr {
        Some(at) => seq![LineView::of("Joined "@ + at + "."@, tinted(DIM))],
        None => {
            let near = seq![invitation("Friends run  "@, lan, "  same wifi"@)];
            if a.pub_ip.len() > 0 {
                near.push(
                    invitation(
                        "          or "@,
                        a.pub_ip + ":"@ + a.port,
                        "  internet"@,
                    ),
                )
            } else {
                near
            }
        },
    };
    let next = if a.you == 0 {
        LineView::of("ctrl+s to start (2+ players)."@, strong(ACCENT))
    } else {
        LineView::of("Waiting for the host to start."@, tinted(DIM))
    };
    (seq![count] + where_to).push(next)
}

/// Things are being named.
pub open spec fn assign_view(a: AppView) -> Seq<LineView> {
    match a.target() {
        Some(p) if p.thing.len() > 0 => seq![
            LineView::of("Sent. Waiting for everyone else."@, tinted(DIM)),
        ],
        Some(p) => seq![
            LineView::of("You assign "@ + p.name + ". What are they?"@, strong(ACCENT)),
        ],
        None => seq![LineView::of("You assign "@ + ". What are they?"@, strong(ACCENT))],
    }
}

/// Whose turn it is.
pub open spec fn play_lead(a: AppView) -> Seq<SpanView> {
    seq![
        if a.state.turn == a.you {
            SpanView::of("YOUR TURN"@, strong(ACCENT))
        } else {
            SpanView::of(a.state.players[a.state.turn].name + " is asking."@, tinted(DIM))
        },
        SpanView::bare("  "@),
    ]
}

/// The game is on.
pub open spec fn play_view(a: AppView, now: i64) -> Seq<LineView> {
    let p = a.state.players;
    let mine = a.state.turn == a.you;
    let head = LineView::from(play_lead(a) + clock_view(a.state.deadline, now));
    if p[a.you].done {
        seq![
            LineView::of(" YOU GOT IT: "@ + p[a.you].thing + " "@, banner()),
            head,
            LineView::of("Hang around and watch the others suffer."@, tinted(DIM)),
        ]
    } else if mine {
        seq![
            head,
            LineView::of(
                "ask your yes/no question, then type a guess, or ctrl+k to pass."@,
                tinted(DIM),
            ),
        ]
    } else {
        seq![head]
    }
}

/// What goes on.
pub open spec fn status_view(a: AppView, lan: Seq<char>, now: i64) -> Seq<LineView> {
    if !a.joined {
        seq![LineView::of("Type your name and hit enter."@, strong(ACCENT))]
    } else if a.state.phase == "lobby"@ {
        lobby_view(a, lan)
    } else if a.state.phase == "assign"@ {
        assign_view(a)
    } else if a.state.phase == "play"@ {
        play_view(a, now)
    } else {
        seq![
            LineView::of(
                "Game over. You were: "@ + a.state.players[a.you].thing,
                strong(ACCENT),
            ),
        ]
    }
}

/// The players that the game speaks of are there.
pub open spec fn status_fits(a: AppView) -> bool {
    a.joined && a.state.phase != "lobby"@ && a.state.phase != "assign"@ ==> {
        &&& a.you < a.state.players.len()
        &&& a.state.phase == "play"@ ==> a.state.turn < a.state.players.len()
    }
}

/// The clock of a game at `now`.
pub fn clock_at(state: &State, now: i64) -> (spans: Vec<Span>)
    ensures
        span_views(spans@) == clock_view(state.deadline, now),
{
    let mut spans: Vec<Span> = Vec::new();
    assert(span_views(spans@) =~= Seq::empty());
    if state.deadline == 0 {
        return spans;
    }
    let ms = state.deadline.wrapping_sub(now);
    let left: u64 = if ms <= 0 { 0 } else { (ms as u64 + 999) / 1000 };
    let cells: u64 = left * BAR_CELLS / (TURN_LIMIT / 1000);
    let cells: u64 = if cells < BAR_CELLS { cells } else { BAR_CELLS };
    let color = if left <= LAST_SECONDS { BAD } else { ACCENT };
    let text = plus(
        &plus(&pad_start(&decimal(left as u128), 2), "s "),
        &repeat('█', cells as usize),
    );
    add_span(&mut spans, Span::styled(text, Style::new().fg(color).bold()));
    add_span(
        &mut spans,
        Span::styled(repeat('░', (BAR_CELLS - cells) as usize), Style::new().fg(DIM)),
    );
    assert(span_views(spans@) =~= clock_view(state.deadline, now));
    spans
}

/// `items` in lines, as many on each as fit in `columns`.
pub fn wrap(items: &[&str], sep: &str, columns: u16) -> (lines: Vec<String>)
    ensures
        views(lines@) == wrapped(slice_views(items@), sep@, one_at_least(columns)),
        lines.len() > 0,
{
    let most: usize = if columns < 1 { 1 } else { columns as usize };
    let gap = width(sep);
    let mut done: Vec<String> = Vec::new();
    let mut line = String::new();
    let mut i: usize = 0;
    let ghost all = slice_views(items@);
    assert(views(done@).push(line@) =~= wrapped(all.take(0), sep@, most as int));
    while i < items.len()
        invariant
            i <= items.len(),
            all == slice_views(items@),
            gap == sep@.len(),
            most == one_at_least(columns),
            views(done@).push(line@) == wrapped(all.take(i as int), sep@, most as int),
        decreases items.len() - i,
    {
        let item = items[i];
        let ghost was = wrapped(all.take(i as int), sep@, most as int);
        let ghost before = done@;
        proof {
            assert(all.take(i + 1).drop_last() =~= all.take(i as int));
            assert(all.take(i + 1).last() == item@);
            assert(was.drop_last() =~= views(before));
            assert(was.last() == line@);
        }
        if line.as_str().is_empty() {
            line = item.to_owned();
        } else if width(&line).saturating_add(gap).saturating_add(width(item)) <= most {
            line = plus(&plus(&line, sep), item);
        } else {
            done.push(line);
            line = item.to_owned();
            assert(views(done@) =~= was);
        }
        i += 1;
    }
    assert(all.take(i as int) =~= all);
    let ghost before = done@;
    let ghost tail = line@;
    done.push(line);
    assert(views(done@) =~= views(before).push(tail));
    done
}

/// What the keys do, for this player.
pub fn help_keys(app: &App) -> (keys: Vec<&'static str>)
    ensures
        slice_views(keys@) == keys_view(app@),
{
    let mut keys: Vec<&'static str> = Vec::new();
    if app.you == 0 && app.joined {
        if same(&app.state.phase, "lobby") {
            keys.push("ctrl+s: start");
        } else {
            keys.push("ctrl+r: new round");
        }
    }
    if !app.notes_hidden {
        keys.push("tab: panes");
    }
    keys.push("ctrl+n: notes");
    keys.push("ctrl+u/d: log");
    keys.push("ctrl+g: just me");
    keys.push("ctrl+k: pass");
    keys.push("ctrl+q: quit");
    assert(slice_views(keys@) =~= keys_view(app@));
    keys
}

fn seat(app: &App, i: usize) -> (line: Line)
    requires
        i < app.state.players.len(),
    ensures
        line@ == seat_view(app@, i as int),
{
    let q = &app.state.players[i];
    let me = i == app.you;
    let thing = if me && !q.done {
        "???".to_owned()
    } else if q.thing.as_str().is_empty() {
        "-".to_owned()
    } else {
        q.thing.clone()
    };
    let name = if me { plus(&q.name, " (you)") } else { q.name.clone() };
    let style = if me { Style::new().fg(MINE).bold() } else { Style::new() };
    let arrow = if same(&app.state.phase, "play") && app.state.turn == i { "▶ " } else { "  " };
    let mut spans: Vec<Span> = Vec::new();
    add_span(&mut spans, Span::styled(arrow.to_owned(), Style::new().fg(ACCENT).bold()));
    add_span(&mut spans, Span::styled(pad_end(&name, 20), style));
    add_span(&mut spans, Span::styled(thing, style));
    if q.done {
        add_span(&mut spans, Span::raw(" ✓"));
    }
    if q.off {
        add_span(&mut spans, Span::styled(" (gone)".to_owned(), Style::new().fg(DIM)));
    }
    assert(span_views(spans@) =~= seat_view(app@, i as int).spans);
    Line::from(spans)
}

/// The players, as this one sees them.
pub fn roster(app: &App) -> (lines: Vec<Line>)
    ensures
        line_views(lines@) == roster_view(app@),
{
    let mut lines: Vec<Line> = Vec::new();
    let mut i: usize = 0;
    while i < app.state.players.len()
        invariant
            i <= app.state.players.len(),
            line_views(lines@) == roster_view(app@).take(i as int),
        decreases app.state.players.len() - i,
    {
        add_line(&mut lines, seat(app, i));
        assert(roster_view(app@).take(i + 1) =~= roster_view(app@).take(i as int).push(
            seat_view(app@, i as int),
        ));
        i += 1;
    }
    assert(roster_view(app@).take(i as int) =~= roster_view(app@));
    lines
}

fn invite(lead: &str, at: &str, reach: &str) -> (line: Line)
    ensures
        line@ == invitation(lead@, at@, reach@),
{
    let mut spans: Vec<Span> = Vec::new();
    add_span(&mut spans, Span::raw(lead));
    add_span(&mut spans, Span::styled(plus("headband ", at), Style::new().fg(ACCENT).bold()));
    add_span(&mut spans, Span::styled(" ⧉ ".to_owned(), Style::new().fg(DIM)));
    add_span(&mut spans, Span::styled(reach.to_owned(), Style::new().fg(DIM)));
    assert(span_views(spans@) =~= invitation(lead@, at@, reach@).spans);
    Line::from(spans)
}

fn lobby(app: &App, lan: &str) -> (lines: Vec<Line>)
    ensures
        line_views(lines@) == lobby_view(app@, lan@),
{
    let accent = Style::new().fg(ACCENT).bold();
    let dim = Style::new().fg(DIM);
    let mut lines: Vec<Line> = Vec::new();
    let count = decimal(app.state.players.len() as u128);
    add_line(
        &mut lines,
        Line::styled(plus(&plus("Lobby: ", &count), " connected."), accent),
    );
    match &app.addr {
        Some(a) => {
            add_line(&mut lines, Line::styled(plus(&plus("Joined ", a), "."), dim));
        },
        None => {
            add_line(&mut lines, invite("Friends run  ", lan, "  same wifi"));
            if !app.pub_ip.as_str().is_empty() {
                add_line(
                    &mut lines,
                    invite("          or ", &endpoint(&app.pub_ip, &app.port), "  internet"),
                );
            }
        },
    }
    add_line(
        &mut lines,
        if app.you == 0 {
            Line::styled("ctrl+s to start (2+ players).".to_owned(), accent)
        } else {
            Line::styled("Waiting for the host to start.".to_owned(), dim)
        },
    );
    assert(line_views(lines@) =~= lobby_view(app@, lan@));
    lines
}

fn playing(app: &App, now: i64) -> (lines: Vec<Line>)
    requires
        app.you < app.state.players.len(),
        app.state.turn < app.state.players.len(),
    ensures
        line_views(lines@) == play_view(app@, now),
{
    let accent = Style::new().fg(ACCENT).bold();
    let dim = Style::new().fg(DIM);
    let p = &app.state.players;
    let mine = app.state.turn == app.you;
    let mut head: Vec<Span> = Vec::new();
    if mine {
        add_span(&mut head, Span::styled("YOUR TURN".to_owned(), accent));
    } else {
        add_span(&mut head, Span::styled(plus(&p[app.state.turn].name, " is asking."), dim));
    }
    add_span(&mut head, Span::raw("  "));
    let ghost lead = span_views(head@);
    let mut clock = clock_at(&app.state, now);
    let ghost ticks = span_views(clock@);
    head.append(&mut clock);
    assert(span_views(head@) =~= lead + ticks);
    let mut lines: Vec<Line> = Vec::new();
    if p[app.you].done {
        let won = plus(&plus(" YOU GOT IT: ", &p[app.you].thing), " ");
        let style = Style::new().fg(Color::Black).bg(Color::Green).bold();
        add_line(&mut lines, Line::styled(won, style));
        add_line(&mut lines, Line::from(head));
        add_line(
            &mut lines,
            Line::styled("Hang around and watch the others suffer.".to_owned(), dim),
        );
    } else {
        add_line(&mut lines, Line::from(head));
        if mine {
            add_line(
                &mut lines,
                Line::styled(
                    "ask your yes/no question, then type a guess, or ctrl+k to pass.".to_owned(),
                    dim,
                ),
            );
        }
    }
    proof {
        assert(lead =~= play_lead(app@));
        assert(line_views(lines@) =~= play_view(app@, now));
    }
    lines
}

/// What goes on; `lan` is where the host can be reached from nearby, `now` is the time.
pub fn status(app: &App, lan: &str, now: i64) -> (lines: Vec<Line>)
    requires
        status_fits(app@),
    ensures
        line_views(lines@) == status_view(app@, lan@, now),
{
    let accent = Style::new().fg(ACCENT).bold();
    let dim = Style::new().fg(DIM);
    let mut lines: Vec<Line> = Vec::new();
    if !app.joined {
        add_line(&mut lines, Line::styled("Type your name and hit enter.".to_owned(), accent));
    } else if same(&app.state.phase, "lobby") {
        return lobby(app, lan);
    } else if same(&app.state.phase, "assign") {
        let sent = match app.target() {
            Some(p) => !p.thing.as_str().is_empty(),
            None => false,
        };
        if sent {
            add_line(
                &mut lines,
                Line::styled("Sent. Waiting for everyone else.".to_owned(), dim),
            );
        } else {
            let name = app.target_name();
            let text = plus(&plus("You assign ", &name), ". What are they?");
            assert("You assign "@ + Seq::<char>::empty() =~= "You assign "@);
            add_line(&mut lines, Line::styled(text, accent));
        }
    } else if same(&app.state.phase, "play") {
        return playing(app, now);
    } else {
        let text = plus("Game over. You were: ", &app.state.players[app.you].thing);
        add_line(&mut lines, Line::styled(text, accent));
    }
    assert(line_views(lines@) =~= status_view(app@, lan@, now));
    lines
}

} // verus!
