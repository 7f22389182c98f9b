use headband::app::{can_edit, edit, speaker, Action, App};
use headband::area::Rect;
use headband::frame::{
    can_draw, entry_line, footer, is_presentable, lay_out, log_in, notes_in, ui, Scene,
};
use headband::game::{Player, State, Update};
use headband::host::{now_ms, Host};
use headband::input::{KeyCode, KeyEvent, MouseEventKind};
use headband::notes::Notes;
use headband::screen::{clock_at, help_keys, roster, status, wrap};
use headband::style::{Color, Line, Span, Style, ACCENT, BAD, DIM, MINE};
use ratatui::backend::TestBackend;
use ratatui::buffer::Buffer;
use ratatui::style::{Modifier, Stylize};
use ratatui::text::Text;
use ratatui::widgets::{Block, Borders, Paragraph, Wrap};
use ratatui::{Frame, Terminal};

const LAN: &str = "127.0.0.1:7777";

fn colour(c: Color) -> ratatui::style::Color {
    match c {
        Color::Black => ratatui::style::Color::Black,
        Color::Cyan => ratatui::style::Color::Cyan,
        Color::DarkGray => ratatui::style::Color::DarkGray,
        Color::Green => ratatui::style::Color::Green,
        Color::Magenta => ratatui::style::Color::Magenta,
        Color::Red => ratatui::style::Color::Red,
    }
}

fn look(s: Style) -> ratatui::style::Style {
    let mut out = ratatui::style::Style::new();
    if let Some(c) = s.fg {
        out = out.fg(colour(c));
    }
    if let Some(c) = s.bg {
        out = out.bg(colour(c));
    }
    if s.bold {
        out = out.bold();
    }
    if s.underlined {
        out = out.underlined();
    }
    out
}

fn place(r: Rect) -> ratatui::layout::Rect {
    ratatui::layout::Rect::new(r.x, r.y, r.width, r.height)
}

fn line(l: &Line) -> ratatui::text::Line<'static> {
    let spans: Vec<ratatui::text::Span> = l
        .spans
        .iter()
        .map(|s| ratatui::text::Span::styled(s.text.clone(), look(s.style)))
        .collect();
    ratatui::text::Line::from(spans).style(look(l.style))
}

fn lines(from: &[Line]) -> Text<'static> {
    Text::from(from.iter().map(line).collect::<Vec<_>>())
}

fn paint(f: &mut Frame, s: &Scene) {
    f.render_widget(Paragraph::new(lines(&s.footer)), place(s.footer_area));
    f.render_widget(
        Paragraph::new(lines(std::slice::from_ref(&s.title))),
        place(s.title_area),
    );
    f.render_widget(
        Paragraph::new(lines(&s.status)).wrap(Wrap { trim: false }),
        place(s.status_area),
    );
    f.render_widget(Paragraph::new(lines(&s.roster)), place(s.roster_area));
    f.render_widget(Paragraph::new(lines(&s.log)), place(s.log_area));
    f.render_widget(
        Paragraph::new(lines(std::slice::from_ref(&s.entry))),
        place(s.entry_area),
    );
    if let Some(n) = &s.notes {
        let block = Block::default()
            .borders(Borders::ALL)
            .border_style(look(n.border))
            .title(line(&n.title));
        f.render_widget(block, place(n.area));
        f.render_widget(Paragraph::new(lines(&n.lines)), place(n.inner));
    }
    if let Some(at) = s.cursor {
        f.set_cursor_position(at);
    }
}

fn scene(app: &mut App, w: u16, h: u16) -> Scene {
    assert!(is_presentable(app));
    ui(app, Rect::new(0, 0, w, h), LAN).expect("no room to draw")
}

fn draw(app: &mut App, w: u16, h: u16) -> Buffer {
    let mut t = Terminal::new(TestBackend::new(w, h)).unwrap();
    let s = scene(app, w, h);
    t.draw(|f| paint(f, &s)).unwrap();
    t.backend().buffer().clone()
}

fn render(app: &mut App, w: u16, h: u16) -> Vec<String> {
    let buf = draw(app, w, h);
    (0..buf.area.height)
        .map(|y| {
            (0..buf.area.width)
                .map(|x| buf[(x, y)].symbol())
                .collect::<String>()
        })
        .collect()
}

fn styles(app: &mut App, w: u16, h: u16, row: u16) -> Vec<ratatui::style::Style> {
    let buf = draw(app, w, h);
    (0..w).map(|x| buf[(x, row)].style()).collect()
}

fn playing() -> App {
    let mut app = App::new(None, "7777".into());
    app.joined = true;
    app.you = 1;
    app.state = State {
        phase: "play".into(),
        turn: 1,
        players: vec![
            Player {
                name: "Matt".into(),
                thing: "B".into(),
                done: true,
                off: false,
            },
            Player {
                name: "Todd".into(),
                thing: "A".into(),
                done: false,
                off: false,
            },
        ],
        assigns: vec![1, 0],
        log: vec!["Todd passed.".into()],
        deadline: now_ms() + 72_000,
    };
    app
}

#[test]
fn log_follows_the_roster_instead_of_sinking() {
    let lines = render(&mut playing(), 100, 40);
    let row = |needle: &str| lines.iter().position(|l| l.contains(needle));
    let roster = row("Matt").expect("no roster");
    let log = row("Todd passed.").expect("no log");
    assert!(
        log - roster <= 3,
        "log drifted from the roster: roster row {roster}, log row {log}"
    );
}

#[test]
fn keybinds_are_a_full_width_footer_under_everything() {
    let lines = render(&mut playing(), 100, 40);
    let row = |n: &str| lines.iter().position(|l| l.contains(n));
    let entry = row("your guess").expect("no input line");
    let help = row("tab: panes").expect("no help line");
    let pane_bottom = lines
        .iter()
        .rposition(|l| l.contains('└'))
        .expect("no notes pane");

    assert!(entry < pane_bottom, "input should sit inside the columns");
    assert!(
        help > pane_bottom,
        "keybinds should be under the notes pane, not beside it"
    );
    assert_eq!(help, lines.len() - 1, "keybinds should be the last row");
    assert!(
        lines[help].trim_start().starts_with("tab: panes"),
        "footer should start at the left edge: {:?}",
        lines[help]
    );
    assert!(
        lines.iter().any(|l| l.contains("ctrl+q: quit")),
        "the quit key must never be cut off"
    );
}

#[test]
fn long_log_keeps_the_newest_lines() {
    let mut app = playing();
    app.state.log = (0..60).map(|i| format!("event {i}")).collect();
    let joined = render(&mut app, 100, 20).join("\n");
    assert!(joined.contains("event 59"), "newest line was cut");
    assert!(
        !joined.contains("event 0 "),
        "oldest line should scroll off"
    );
}

#[test]
fn wheel_scrolls_the_log_and_snaps_back() {
    let mut app = playing();
    app.state.log = (0..60).map(|i| format!("event {i}")).collect();
    render(&mut app, 100, 20);

    let (x, y) = (app.log_rect.x, app.log_rect.y);
    app.on_mouse(x, y, MouseEventKind::ScrollUp);
    let joined = render(&mut app, 100, 20).join("\n");
    assert_eq!(app.log_scroll, 3);
    assert!(joined.contains("▲ 3 older"), "no scrolled-back marker");
    assert!(!joined.contains("event 59"), "should be showing history");

    for _ in 0..99 {
        app.on_mouse(x, y, MouseEventKind::ScrollDown);
    }
    let joined = render(&mut app, 100, 20).join("\n");
    assert_eq!(app.log_scroll, 0, "scrolling down should pin to newest");
    assert!(joined.contains("event 59"));
}

fn ctrl(c: char) -> KeyEvent {
    KeyEvent::new(KeyCode::Char(c), true)
}

#[test]
fn ctrl_u_and_d_page_the_log() {
    let mut app = playing();
    app.state.log = (0..60).map(|i| format!("event {i}")).collect();
    render(&mut app, 100, 20);
    let page = app.log_page();
    assert!(page > 1, "a 20-row screen should give a real page");

    app.on_key(ctrl('u'));
    assert_eq!(app.log_scroll, page, "ctrl+u goes back a page");
    app.on_key(ctrl('u'));
    assert_eq!(app.log_scroll, page * 2);
    app.on_key(ctrl('d'));
    assert_eq!(app.log_scroll, page, "ctrl+d comes forward a page");

    for _ in 0..99 {
        app.on_key(ctrl('d'));
    }
    assert_eq!(app.log_scroll, 0, "ctrl+d stops at the newest line");
    for _ in 0..99 {
        app.on_key(ctrl('u'));
    }
    assert_eq!(
        app.log_scroll,
        app.max_log_scroll(),
        "ctrl+u stops at the oldest"
    );
}

#[test]
fn ctrl_n_hides_the_notes_and_gives_the_width_back() {
    let mut app = playing();
    let with = render(&mut app, 100, 20);
    assert!(with.iter().any(|l| l.contains("NOTES")), "no notes pane");

    app.on_key(ctrl('n'));
    let without = render(&mut app, 100, 20);
    assert!(app.notes_hidden);
    assert!(
        !without.iter().any(|l| l.contains("NOTES")),
        "notes pane still drawn"
    );
    assert!(with.iter().any(|l| l.contains('│')), "no pane border");
    assert!(
        !without.iter().any(|l| l.contains('│')),
        "pane border still drawn"
    );

    app.on_key(ctrl('n'));
    assert!(!app.notes_hidden, "ctrl+n toggles back");
}

#[test]
fn help_wraps_instead_of_truncating_on_a_narrow_terminal() {
    for width in [40u16, 60, 100, 200] {
        let mut app = playing();
        app.you = 0;
        app.state.turn = 0;
        let lines = render(&mut app, width, 24);
        let joined = lines.join(" ");
        for key in ["ctrl+r: new round", "ctrl+k: pass", "ctrl+q: quit"] {
            assert!(joined.contains(key), "lost {key:?} at width {width}");
        }
    }
}

#[test]
fn wrap_never_splits_a_key_in_half() {
    let items = ["tab: panes", "ctrl+n: notes", "ctrl+q: quit"];
    for width in [8u16, 20, 41, 200] {
        let lines = wrap(&items, " · ", width);
        for item in items {
            assert!(
                lines.iter().any(|l| l.contains(item)),
                "{item:?} was split at width {width}"
            );
        }
    }
    assert_eq!(wrap(&items, " · ", 200).len(), 1, "no needless wrapping");
}

#[test]
fn an_error_replaces_the_footer() {
    let mut app = playing();
    app.err = "connection lost".into();
    let lines = render(&mut app, 100, 40);
    assert!(
        lines.iter().any(|l| l.contains("connection lost")),
        "the error never showed"
    );
    assert!(
        !lines.iter().any(|l| l.contains("ctrl+q: quit")),
        "the footer should give way to the error"
    );
}

#[test]
fn hidden_notes_never_take_focus() {
    let mut app = playing();
    app.on_notes = true;
    app.on_key(ctrl('n'));
    assert!(!app.on_notes, "hiding must drop focus");

    app.on_key(KeyEvent::new(KeyCode::Tab, false));
    assert!(!app.on_notes, "tab must not reach a hidden pane");
}

#[test]
fn typing_still_reaches_the_input_while_hidden() {
    let mut app = playing();
    app.state.turn = app.you;
    app.on_key(ctrl('n'));
    for c in "duck".chars() {
        app.on_key(KeyEvent::new(KeyCode::Char(c), false));
    }
    assert_eq!(app.entry.lines[0], "duck");
    assert!(app.notes.is_empty(), "notes must not have swallowed it");
}

#[test]
fn lobby_addresses_are_clickable_rows() {
    let mut app = App::new(None, "7777".into());
    app.joined = true;
    app.state.phase = "lobby".into();
    app.state.players = vec![Player {
        name: "Matt".into(),
        ..Default::default()
    }];
    app.pub_ip = "1.2.3.4".into();
    let lines = render(&mut app, 100, 20);

    assert_eq!(app.share.len(), 2, "both addresses should be clickable");
    assert!(
        app.share.iter().any(|(_, a)| a == "headband 1.2.3.4:7777"),
        "the runnable command should be copied, not the bare address: {:?}",
        app.share
    );
    for (row, addr) in &app.share {
        assert!(
            lines[*row as usize].contains(addr.as_str()),
            "row {row} does not hold {addr}: {:?}",
            lines[*row as usize]
        );
        assert!(lines[*row as usize].contains('⧉'), "no copy icon on {addr}");
    }

    let miss = app.log_rect.y;
    assert!(app.copy_share(miss).is_none(), "only the address rows copy");

    let (row, _) = app.share[0].clone();
    let plain = styles(&mut app, 100, 20, row);
    app.on_mouse(0, row, MouseEventKind::Moved);
    let hot = styles(&mut app, 100, 20, row);
    assert_ne!(plain, hot, "hovered row should look different");
    assert!(
        hot.iter()
            .any(|s| s.add_modifier.contains(Modifier::UNDERLINED)),
        "address should underline on hover"
    );
    app.on_mouse(0, miss, MouseEventKind::Moved);
    assert_eq!(
        styles(&mut app, 100, 20, row),
        plain,
        "highlight should drop when the mouse leaves"
    );

    app.state.phase = "play".into();
    render(&mut app, 100, 20);
    assert!(app.share.is_empty(), "stale rows must not stay clickable");
}

#[test]
fn finished_players_still_see_the_clock() {
    let mut app = playing();
    app.you = 0;
    app.state.turn = 1;
    let joined = render(&mut app, 100, 20).join("\n");
    assert!(joined.contains("YOU GOT IT: B"), "lost the winner banner");
    assert!(joined.contains("Todd is asking."), "no whose-turn line");
    assert!(joined.contains("72s"), "no clock: {joined}");
}

#[test]
fn my_log_lines_stand_out_and_ctrl_g_keeps_only_mine() {
    let mut app = playing();
    app.state.log = vec![
        "Matt guessed \"cat\": nope.".into(),
        "Todd passed.".into(),
        "Todd guessed \"dog\": nope.".into(),
    ];
    render(&mut app, 100, 20);
    let (row, x) = (app.log_rect.y, app.log_rect.x as usize);
    assert_eq!(
        styles(&mut app, 100, 20, row)[x].fg,
        Some(colour(DIM)),
        "someone else's line should stay dim"
    );
    assert_eq!(
        styles(&mut app, 100, 20, row + 2)[x].fg,
        Some(colour(MINE)),
        "my own line should stand out"
    );

    app.on_key(ctrl('g'));
    let joined = render(&mut app, 100, 20).join("\n");
    assert!(
        !joined.contains("Matt guessed"),
        "someone else's line stayed"
    );
    assert!(joined.contains("dog"), "lost my guess");
    assert!(joined.contains("Todd passed."), "all my lines should show");

    app.on_key(ctrl('g'));
    let joined = render(&mut app, 100, 20).join("\n");
    assert!(joined.contains("Matt guessed"), "ctrl+g toggles back");
}

#[test]
fn the_lobby_has_no_input_until_the_host_starts() {
    let mut app = App::new(None, "7777".into());
    app.joined = true;
    app.state.phase = "lobby".into();
    app.state.players = vec![Player {
        name: "Matt".into(),
        ..Default::default()
    }];
    let lines = render(&mut app, 100, 20);
    let row = app.entry_rect.y as usize;
    assert!(
        !lines[row].contains('>'),
        "still prompting: {:?}",
        lines[row]
    );

    app.on_key(KeyEvent::new(KeyCode::Char('x'), false));
    assert!(
        app.entry.lines[0].is_empty(),
        "the lobby swallowed a keystroke"
    );

    app.state.phase = "assign".into();
    let lines = render(&mut app, 100, 20);
    assert!(
        lines[row].contains('>'),
        "no prompt once the game starts: {:?}",
        lines[row]
    );
}

#[test]
fn a_new_round_clears_a_queued_guess() {
    let mut app = playing();
    let sent = |phase: &str, app: &App| {
        let mut state = app.state.clone();
        state.phase = phase.into();
        vec![Update { state, you: app.you }]
    };

    app.entry.lines[0] = "duck".into();
    app.entry.col = 4;
    let updates = sent("assign", &app);
    app.drain(updates);
    assert!(app.entry.lines[0].is_empty(), "a stale guess survived");
    assert_eq!(app.entry.col, 0, "the cursor kept the old column");

    app.entry.lines[0] = "cat".into();
    let updates = sent("assign", &app);
    app.drain(updates);
    assert_eq!(
        app.entry.lines[0], "cat",
        "only a new round should clear it"
    );

    let updates = sent("assign", &app);
    app.state.log.push("stale".into());
    app.drain(updates);
    assert!(
        app.entry.lines[0].is_empty(),
        "a restart mid-assign wipes the log, so it is a new round too"
    );
}

#[test]
fn tab_swaps_panes_off_turn_too() {
    let mut app = playing();
    app.state.turn = 0;
    app.on_key(KeyEvent::new(KeyCode::Tab, false));
    assert!(app.on_notes, "tab should still reach the notes");
    app.on_key(KeyEvent::new(KeyCode::Tab, false));
    assert!(!app.on_notes, "tab should come back to the input");
}

#[test]
fn a_guess_waits_for_your_turn() {
    let mut app = playing();
    app.state.turn = 0;
    for c in "duck".chars() {
        app.on_key(KeyEvent::new(KeyCode::Char(c), false));
    }
    app.on_key(KeyEvent::new(KeyCode::Enter, false));
    assert_eq!(
        app.entry.lines[0], "duck",
        "the queued guess was thrown away"
    );
    let joined = render(&mut app, 100, 20).join("\n");
    assert!(
        joined.contains("waiting for your turn"),
        "nothing says it cannot send yet: {joined}"
    );

    app.state.turn = app.you;
    app.on_key(KeyEvent::new(KeyCode::Enter, false));
    assert!(app.entry.lines[0].is_empty(), "your turn should send it");
}

#[test]
fn log_cannot_scroll_past_its_history() {
    let mut app = playing();
    app.state.log = (0..60).map(|i| format!("event {i}")).collect();
    render(&mut app, 100, 20);
    for _ in 0..99 {
        app.on_mouse(app.log_rect.x, app.log_rect.y, MouseEventKind::ScrollUp);
    }
    render(&mut app, 100, 20);
    assert_eq!(app.log_scroll, app.max_log_scroll());
    assert!(app.log_scroll < app.state.log.len(), "scrolled off the end");
}

fn key(code: KeyCode) -> KeyEvent {
    KeyEvent::new(code, false)
}

fn text(l: &Line) -> String {
    l.spans.iter().map(|s| s.text.as_str()).collect()
}

fn texts(lines: &[Line]) -> Vec<String> {
    lines.iter().map(text).collect()
}

#[test]
fn shortcuts_send_their_command() {
    let mut app = playing();
    for (c, want) in [('s', "start"), ('r', "restart"), ('k', "skip")] {
        match app.on_key(ctrl(c)) {
            Action::Send(cmd) => {
                assert_eq!(cmd.cmd, want);
                assert_eq!((cmd.name.as_str(), cmd.text.as_str()), ("", ""));
            }
            _ => panic!("ctrl+{c} sent nothing"),
        }
    }
    assert!(matches!(app.on_key(ctrl('q')), Action::Nothing));
    assert!(app.quit);
}

#[test]
fn what_is_entered_is_what_is_sent() {
    let mut app = App::new(None, "7777".into());
    for c in " ann ".chars() {
        app.on_key(key(KeyCode::Char(c)));
    }
    assert!(matches!(app.on_key(key(KeyCode::Enter)), Action::Connect(n) if n == "ann"));
    assert!(app.entry.is_empty());
    assert_eq!(app.entry.col, 0);

    let mut app = playing();
    for c in "a duck ".chars() {
        app.on_key(key(KeyCode::Char(c)));
    }
    assert!(
        matches!(app.on_key(key(KeyCode::Enter)), Action::Send(c) if c.cmd == "guess" && c.text == "a duck")
    );

    app.state.phase = "assign".into();
    app.state.players[0].thing.clear();
    app.entry.lines[0] = "cat".into();
    assert!(matches!(app.submit(), Action::Send(c) if c.cmd == "thing" && c.text == "cat"));

    app.entry.lines[0] = "  ".into();
    assert!(matches!(app.submit(), Action::Nothing), "nothing to send");
    assert_eq!(app.entry.lines[0], "  ");
}

#[test]
fn an_early_entry_says_that_it_waits() {
    let mut app = playing();
    app.state.turn = 0;
    app.entry.lines[0] = "duck".into();
    assert!(matches!(app.submit(), Action::Nothing));
    assert_eq!(app.flash, "not your turn yet, this waits here.");
    app.on_key(key(KeyCode::Other));
    assert!(app.flash.is_empty(), "the next key takes the message away");
}

#[test]
fn a_click_on_an_address_copies_it() {
    let mut app = App::new(None, "7777".into());
    app.joined = true;
    app.state.phase = "lobby".into();
    render(&mut app, 100, 20);
    let (row, _) = app.share[0].clone();
    match app.on_mouse(0, row, MouseEventKind::LeftDown) {
        Action::Copy(what) => {
            assert_eq!(what, "headband 127.0.0.1:7777");
            app.copied(&what, Ok(()));
        }
        _ => panic!("nothing copied"),
    }
    assert_eq!(app.flash, "copied headband 127.0.0.1:7777");
    app.copied("x", Err("no terminal".into()));
    assert_eq!(app.flash, "could not copy: no terminal");
    assert_eq!(app.copy_share(row).as_deref(), Some("headband 127.0.0.1:7777"));
}

#[test]
fn failures_are_reported() {
    let mut app = playing();
    app.send_failed();
    assert_eq!(app.err, "connection lost");
    app.connect_failed("refused");
    assert_eq!(app.err, "could not connect: refused");
    let foot = footer(&app, Rect::new(0, 0, 100, 20));
    assert_eq!(texts(&foot), vec!["could not connect: refused"]);
    assert_eq!(foot[0].style.fg, Some(BAD));
}

#[test]
fn the_mouse_moves_the_cursors() {
    let mut app = playing();
    app.entry.lines[0] = "duck".into();
    render(&mut app, 100, 20);
    let at = app.entry_rect;
    app.on_notes = true;
    app.on_mouse(at.x + 4, at.y, MouseEventKind::LeftDown);
    assert!(!app.on_notes);
    assert_eq!(app.entry.col, 2);
    app.on_mouse(at.x, at.y, MouseEventKind::LeftDown);
    assert_eq!(app.entry.col, 0);
    app.on_mouse(at.x + 30, at.y, MouseEventKind::LeftDown);
    assert_eq!(app.entry.col, 4);

    app.notes.lines = vec!["hello".into(), "world".into()];
    let inner = app.notes_inner;
    app.on_mouse(inner.x + 1, inner.y, MouseEventKind::LeftDrag);
    assert_eq!(app.notes.selection(), None, "no drag from outside");
    app.on_mouse(inner.x + 1, inner.y, MouseEventKind::LeftDown);
    assert!(app.on_notes);
    app.on_mouse(inner.x + 3, inner.y + 1, MouseEventKind::LeftDrag);
    assert_eq!(app.notes.selection(), Some(((0, 1), (1, 3))));
    let s = scene(&mut app, 100, 20);
    assert_eq!(s.cursor, Some((inner.x + 3, inner.y + 1)));
    let pane = s.notes.unwrap();
    assert_eq!(texts(&pane.lines), vec!["hello", "world"]);
    assert_eq!(pane.lines[0].spans[1].style.bg, Some(ACCENT));
}

#[test]
fn the_wheel_scrolls_the_notes() {
    let mut app = playing();
    app.notes.lines = (0..40).map(|i| format!("note {i}")).collect();
    render(&mut app, 100, 20);
    let inner = app.notes_inner;
    app.on_mouse(inner.x, inner.y, MouseEventKind::ScrollDown);
    assert_eq!(app.notes.scroll, 3);
    assert_eq!(text(&notes_in(&app, 2)[0]), "note 3");
    app.on_mouse(inner.x, inner.y, MouseEventKind::ScrollUp);
    app.on_mouse(inner.x, inner.y, MouseEventKind::ScrollUp);
    assert_eq!(app.notes.scroll, 0);
}

#[test]
fn the_clock_is_a_bar_and_a_number() {
    let mut state = State {
        deadline: 100_000,
        ..Default::default()
    };
    let show = |state: &State, now: i64| -> Vec<(String, Option<Color>)> {
        let spans: Vec<Span> = clock_at(state, now);
        spans.into_iter().map(|s| (s.text, s.style.fg)).collect()
    };
    assert_eq!(
        show(&state, 10_000),
        vec![
            (format!("90s {}", "█".repeat(24)), Some(ACCENT)),
            (String::new(), Some(DIM))
        ]
    );
    assert_eq!(
        show(&state, 54_999),
        vec![
            (format!("46s {}", "█".repeat(12)), Some(ACCENT)),
            ("░".repeat(12), Some(DIM))
        ]
    );
    assert_eq!(show(&state, 85_000)[0].1, Some(BAD), "the last seconds");
    assert_eq!(show(&state, 84_999)[0].1, Some(ACCENT));
    assert_eq!(
        show(&state, 99_999)[0].0,
        " 1s ",
        "a second begun is a second left"
    );
    assert_eq!(show(&state, 100_001)[0].0, " 0s ");
    assert_eq!(show(&state, -500_000)[0].0, format!("600s {}", "█".repeat(24)));
    state.deadline = 0;
    assert!(show(&state, 10).is_empty(), "no deadline, no clock");
}

#[test]
fn the_roster_shows_everything_but_your_own_thing() {
    let mut app = playing();
    app.state.players[0].off = true;
    assert_eq!(
        texts(&roster(&app)),
        vec![
            "  Matt                B ✓ (gone)",
            "▶ Todd (you)          ???"
        ]
    );
    app.state.players[1].done = true;
    app.state.players[0].thing.clear();
    app.state.phase = "over".into();
    let lines = roster(&app);
    assert_eq!(text(&lines[0]), "  Matt                - ✓ (gone)");
    assert_eq!(text(&lines[1]), "  Todd (you)          A ✓");
    assert_eq!(lines[1].spans[1].style.fg, Some(MINE));
}

#[test]
fn the_status_tells_where_the_game_is() {
    let mut app = App::new(None, "7777".into());
    assert_eq!(texts(&status(&app, LAN, 0)), vec!["Type your name and hit enter."]);
    app.joined = true;
    app.state.phase = "lobby".into();
    app.pub_ip = "1.2.3.4".into();
    assert_eq!(
        texts(&status(&app, LAN, 0)),
        vec![
            "Lobby: 0 connected.",
            "Friends run  headband 127.0.0.1:7777 ⧉   same wifi",
            "          or headband 1.2.3.4:7777 ⧉   internet",
            "ctrl+s to start (2+ players).",
        ]
    );
    app.addr = Some("box:1".into());
    app.you = 1;
    assert_eq!(
        texts(&status(&app, LAN, 0)),
        vec!["Lobby: 0 connected.", "Joined box:1.", "Waiting for the host to start."]
    );

    let mut app = playing();
    app.state.deadline = 0;
    assert_eq!(
        texts(&status(&app, LAN, 0)),
        vec![
            "YOUR TURN  ",
            "ask your yes/no question, then type a guess, or ctrl+k to pass."
        ]
    );
    app.you = 0;
    assert_eq!(
        texts(&status(&app, LAN, 0)),
        vec![
            " YOU GOT IT: B ",
            "Todd is asking.  ",
            "Hang around and watch the others suffer."
        ]
    );
    app.state.phase = "assign".into();
    assert_eq!(texts(&status(&app, LAN, 0)), vec!["Sent. Waiting for everyone else."]);
    app.state.players[1].thing.clear();
    assert_eq!(texts(&status(&app, LAN, 0)), vec!["You assign Todd. What are they?"]);
    app.state.phase = "over".into();
    assert_eq!(texts(&status(&app, LAN, 0)), vec!["Game over. You were: B"]);
}

#[test]
fn the_keys_shown_are_those_that_work() {
    let mut app = playing();
    assert_eq!(
        help_keys(&app),
        vec![
            "tab: panes",
            "ctrl+n: notes",
            "ctrl+u/d: log",
            "ctrl+g: just me",
            "ctrl+k: pass",
            "ctrl+q: quit"
        ]
    );
    app.you = 0;
    app.notes_hidden = true;
    assert_eq!(help_keys(&app)[..2], ["ctrl+r: new round", "ctrl+n: notes"]);
    app.state.phase = "lobby".into();
    assert_eq!(help_keys(&app)[0], "ctrl+s: start");
    app.joined = false;
    assert_eq!(help_keys(&app)[0], "ctrl+n: notes");
}

#[test]
fn wrapping_keeps_to_the_width_where_it_can() {
    assert_eq!(wrap(&["ab", "cd", "ef"], " ", 5), vec!["ab cd", "ef"]);
    assert_eq!(wrap(&["abcdef", "g"], " ", 3), vec!["abcdef", "g"]);
    assert_eq!(wrap(&["a", "b"], " ", 0), vec!["a", "b"]);
    assert_eq!(wrap(&[], " ", 9), vec![""]);
    assert_eq!(wrap(&["", "a"], "-", 9), vec!["a"]);
}

#[test]
fn the_entry_says_what_to_type() {
    let mut app = App::new(None, "7777".into());
    assert_eq!(text(&entry_line(&app)), "> your name");
    app.joined = true;
    app.state.phase = "lobby".into();
    assert_eq!(text(&entry_line(&app)), "");
    let mut app = playing();
    assert_eq!(text(&entry_line(&app)), "> your guess");
    app.state.turn = 0;
    assert_eq!(text(&entry_line(&app)), "> queue your next guess");
    app.entry.lines[0] = "duck".into();
    assert_eq!(text(&entry_line(&app)), "> duck  waiting for your turn");
    app.state.phase = "assign".into();
    app.entry.lines[0].clear();
    app.state.players[0].thing.clear();
    assert_eq!(text(&entry_line(&app)), "> what Matt is");
    assert_eq!(app.target_name(), "Matt");
}

#[test]
fn the_log_shows_hits_as_a_banner() {
    let mut app = playing();
    app.state.log = vec!["Matt got it: B ✓".into(), "Todd passed.".into()];
    app.log_rect = Rect::new(0, 0, 10, 5);
    let lines = log_in(&app);
    assert_eq!(texts(&lines), vec![" Matt got it: B ✓ ", "Todd passed."]);
    assert_eq!(lines[0].style.bg, Some(Color::Green));
    assert_eq!(lines[1].style.fg, Some(MINE));
    app.log_rect.height = 1;
    assert_eq!(texts(&log_in(&app)), vec!["Todd passed."]);
    app.log_scroll = 1;
    assert_eq!(texts(&log_in(&app)), vec!["▲ 1 older, scroll down for the latest"]);
}

#[test]
fn a_line_speaks_of_the_first_name_that_it_begins_with() {
    let mut app = playing();
    assert_eq!(speaker(&app.state, "Todd passed."), Some(1));
    assert_eq!(speaker(&app.state, "todd passed."), None);
    app.state.players[0].name = "To".into();
    assert_eq!(speaker(&app.state, "Todd passed."), Some(0));
    assert_eq!(app.log_lines().len(), 1);
    app.mine_only = true;
    assert!(app.log_lines().is_empty());
}

#[test]
fn keys_edit_the_text() {
    let mut n = Notes::new();
    for c in "ab".chars() {
        edit(&mut n, KeyCode::Char(c));
    }
    edit(&mut n, KeyCode::Enter);
    edit(&mut n, KeyCode::Char('c'));
    edit(&mut n, KeyCode::Up);
    edit(&mut n, KeyCode::End);
    edit(&mut n, KeyCode::Backspace);
    edit(&mut n, KeyCode::Down);
    edit(&mut n, KeyCode::Home);
    edit(&mut n, KeyCode::Delete);
    edit(&mut n, KeyCode::Left);
    edit(&mut n, KeyCode::Right);
    edit(&mut n, KeyCode::Other);
    assert_eq!(n.lines, vec!["a", ""]);
    assert_eq!((n.row, n.col), (1, 0));
    n.lines = vec!["hello".into()];
    n.row = 0;
    n.col = 4;
    n.anchor = Some((0, 1));
    edit(&mut n, KeyCode::Left);
    assert_eq!(n.selection(), None, "moving drops the selection");
}

#[test]
fn keys_follow_the_cursor_through_the_notes() {
    let mut app = playing();
    app.on_notes = true;
    app.notes_inner = Rect::new(0, 0, 10, 2);
    for _ in 0..4 {
        app.on_key(key(KeyCode::Enter));
    }
    assert_eq!(app.notes.scroll, 3);
    assert!(app.entry.is_empty(), "the entry must not have swallowed it");
}

#[test]
fn only_the_last_of_the_updates_counts() {
    let mut app = playing();
    let mut first = app.state.clone();
    first.phase = "assign".into();
    let mut last = app.state.clone();
    last.turn = 0;
    app.entry.lines[0] = "duck".into();
    app.drain(vec![
        Update { state: first, you: 1 },
        Update { state: last, you: 0 },
    ]);
    assert_eq!((app.you, app.state.turn), (0, 0));
    assert_eq!(app.state.phase, "play");
    assert_eq!(app.entry.lines[0], "duck");
    app.drain(vec![]);
    assert_eq!(app.you, 0);
}

#[test]
fn the_panes_stay_on_the_screen() {
    for w in 0..30u16 {
        for h in 0..30u16 {
            for hidden in [false, true] {
                let p = lay_out(Rect::new(0, 0, w, h), hidden, 2, 3, 4);
                assert_eq!((p.footer.x, p.footer.width), (0, w));
                for r in [p.footer, p.title, p.status, p.roster, p.log, p.entry, p.side] {
                    assert!(r.right() <= w && r.bottom() <= h, "{w}x{h}: {p:?}");
                }
            }
        }
    }
}

#[test]
fn a_footer_taller_than_the_screen_has_all_of_it() {
    for (h, footer) in [(0u16, 1usize), (1, 2), (5, 6), (24, 65_535), (65_000, 65_535)] {
        let p = lay_out(Rect::new(0, 0, 80, h), true, footer, 1, 1);
        assert_eq!(p.footer, Rect::new(0, 0, 80, h));
    }
}

#[test]
fn the_footer_keeps_its_rows_where_there_are_any() {
    for h in 0..80u16 {
        for footer in 0..h + 9 {
            let p = lay_out(Rect::new(0, 0, 50, h), false, footer as usize, 4, 9);
            let rows = footer.min(h);
            assert_eq!((p.footer.y, p.footer.height), (h - rows, rows));
            for r in [p.title, p.status, p.roster, p.log, p.entry, p.side] {
                assert!(r.bottom() <= p.footer.y);
            }
        }
    }
}

#[test]
fn the_panes_follow_one_another_where_they_fit() {
    for (x, y) in [(0u16, 0u16), (3, 5), (65_000, 65_000)] {
        for w in (3..400u16).step_by(7) {
            for (footer, status, roster) in [(1usize, 1usize, 0usize), (2, 4, 3), (5, 3, 12)] {
                let need = (footer + status + roster + 7) as u16;
                for h in [need, need + 1, need + 50] {
                    for hidden in [false, true] {
                        let screen = Rect::new(x, y, w, h);
                        let p = lay_out(screen, hidden, footer, status, roster);
                        assert_eq!(p.title.y, y + 1);
                        assert_eq!(p.status.y, y + 3);
                        assert_eq!(p.roster.y, p.status.y + status as u16 + 1);
                        assert_eq!(p.log.y, p.roster.y + roster as u16 + 1);
                        assert_eq!(p.log.height, h - need);
                        assert_eq!(p.entry.y, p.log.bottom());
                        assert_eq!(p.entry.height, 1);
                        assert_eq!(p.footer.y, p.entry.y + 2);
                        assert_eq!(p.log.x, x + 1);
                        let left = (60 * w as u32 + 50) / 100;
                        if hidden {
                            assert_eq!(p.log.width, w - 2);
                        } else {
                            assert_eq!(p.log.width as u32, left - 2, "{w}");
                            assert_eq!(p.side.x as u32, x as u32 + left);
                            assert_eq!(p.side.right(), x + w);
                        }
                    }
                }
            }
        }
    }
}

#[test]
fn the_notes_are_drawn_inside_their_frame() {
    let mut app = playing();
    let s = scene(&mut app, 80, 24);
    let pane = s.notes.unwrap();
    let block = Block::default().borders(Borders::ALL);
    assert_eq!(place(pane.inner), block.inner(place(pane.area)));
    assert_eq!(texts(&pane.lines), vec!["click here to take notes"]);
    assert_eq!(app.notes_inner, pane.inner);
    assert_eq!(text(&pane.title), " NOTES ");
    assert_eq!(pane.title.spans[0].style, Style::new().fg(ACCENT).bold());
    assert_eq!(pane.border, Style::new().fg(DIM));
    app.on_notes = true;
    let pane = scene(&mut app, 80, 24).notes.unwrap();
    assert_eq!(pane.border, Style::new().fg(ACCENT), "the focus shows");
}

#[test]
fn a_game_that_names_missing_players_cannot_be_drawn() {
    let mut app = playing();
    assert!(is_presentable(&app));
    app.state.turn = 2;
    assert!(!is_presentable(&app));
    app.state.turn = 0;
    app.you = 9;
    assert!(!is_presentable(&app));
    app.state.phase = "lobby".into();
    assert!(is_presentable(&app));
}

#[test]
fn a_cursor_off_the_terminal_cannot_be_drawn() {
    let mut app = playing();
    let panes = lay_out(Rect::new(0, 0, 80, 24), false, 1, 2, 2);
    assert!(can_draw(&app, panes, &status(&app, LAN, 0)));
    app.entry.col = 65_535;
    assert!(!can_draw(&app, panes, &status(&app, LAN, 0)));
    assert!(ui(&mut app, Rect::new(0, 0, 80, 24), LAN).is_none());
    assert_eq!(app.entry_rect, Rect::zero(), "nothing is noted");
}

#[test]
fn the_roster_is_the_same_whatever_your_thing_is() {
    let mut app = playing();
    let before = texts(&roster(&app));
    app.state.players[1].thing = "a duck".into();
    assert_eq!(texts(&roster(&app)), before);
    app.state.players[0].thing = "a duck".into();
    assert_ne!(texts(&roster(&app)), before);
}

#[test]
fn keys_fit_a_new_player_and_not_a_broken_text() {
    let all = [
        KeyCode::Char('x'),
        KeyCode::Enter,
        KeyCode::Backspace,
        KeyCode::Delete,
        KeyCode::Left,
        KeyCode::Right,
        KeyCode::Up,
        KeyCode::Down,
        KeyCode::Home,
        KeyCode::End,
        KeyCode::Tab,
        KeyCode::Other,
    ];
    let mut app = App::new(None, "7777".into());
    for code in all {
        assert!(can_edit(&app.entry, code));
        assert!(app.is_fit_for(key(code)));
    }
    app.entry = Notes::default();
    let unfit: Vec<KeyCode> = all.into_iter().filter(|&c| !app.is_fit_for(key(c))).collect();
    assert_eq!(
        unfit,
        vec![
            KeyCode::Char('x'),
            KeyCode::Enter,
            KeyCode::Delete,
            KeyCode::Right,
            KeyCode::End
        ]
    );
    assert!(app.is_fit_for(ctrl('q')), "a shortcut edits nothing");
    assert!(!app.is_fit_for(ctrl('x')), "but other letters do");
    app.on_notes = true;
    assert!(app.is_fit_for(key(KeyCode::Char('x'))));
}

#[test]
fn the_mouse_fits_unless_the_text_under_it_has_no_line() {
    let mut app = playing();
    render(&mut app, 100, 20);
    let (notes, entry) = (app.notes_inner, app.entry_rect);
    assert!(app.is_fit_for_mouse(notes.x, notes.y, MouseEventKind::LeftDown));
    assert!(app.is_fit_for_mouse(entry.x, entry.y, MouseEventKind::LeftDown));
    app.notes = Notes::default();
    app.entry = Notes::default();
    assert!(!app.is_fit_for_mouse(notes.x, notes.y, MouseEventKind::LeftDown));
    assert!(!app.is_fit_for_mouse(entry.x, entry.y, MouseEventKind::LeftDown));
    assert!(app.is_fit_for_mouse(notes.x, notes.y, MouseEventKind::LeftDrag));
    app.on_notes = true;
    assert!(!app.is_fit_for_mouse(notes.x, notes.y, MouseEventKind::LeftDrag));
    assert!(app.is_fit_for_mouse(notes.x, notes.y, MouseEventKind::ScrollUp));
}

#[test]
fn the_title_is_always_there() {
    let mut app = App::new(None, "7777".into());
    let s = scene(&mut app, 60, 20);
    assert_eq!(text(&s.title), "HEADBAND");
    assert_eq!(s.title.style.fg, Some(ACCENT));
    assert_eq!(s.cursor, Some((s.entry_area.x + 2, s.entry_area.y)));
}

#[test]
fn who_joins_sees_who_is_there() {
    let mut host = Host::new();
    let mut apps = vec![];
    for name in ["ann", "bo"] {
        assert_eq!(host.join(name.into(), true), apps.len());
        apps.push(App::new(None, "7777".into()));
        for u in host.take_outbox() {
            let you = u.you;
            apps[you].drain(vec![u]);
        }
    }
    for (i, app) in apps.iter().enumerate() {
        assert!(app.joined);
        assert_eq!(app.you, i);
        assert_eq!(app.state.players.len(), 2);
        assert_eq!(app.state.players[0].name, "ann");
    }
}

#[test]
fn a_command_on_a_line_of_its_own_is_shared() {
    let mut app = playing();
    app.state.phase = "over".into();
    app.state.players[1].thing = "x\nheadband y".into();
    let s = scene(&mut app, 100, 20);
    assert_eq!(app.share, vec![(s.status_area.y, "headband y".to_string())]);
    app.hover = Some(s.status_area.y);
    let s = scene(&mut app, 100, 20);
    let under: Vec<bool> = s.status[0].spans.iter().map(|p| p.style.underlined).collect();
    assert_eq!(under, vec![false, true]);

    app.state.players[1].thing = "x\ny headband".into();
    scene(&mut app, 100, 20);
    assert!(app.share.is_empty());
}
